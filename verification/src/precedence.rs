//! Which configuration files and sections prevail.
use vstd::prelude::*;

use crate::laws::lemma_external_members;
use crate::model::{applied, configs_of, leading, stacked, AbsKey, ConfigModel, RelKey, StoreModel};
use crate::outside::{
    distinct_keys, glob_matches, key_at, overlaid, reads, text_of, value_of, with_derived_sizes,
    with_fallbacks, with_pair, Pairs, SectionModel,
};
use crate::paths::{slash_joined, AbsPath, RelPath};
use crate::sorted_map::{in_order, lemma_in_order_members, OrderedKey};

verus! {

/// A file in a directory outside of the worktrees is listed before the files further inwards.
pub proof fn law_outer_files_first(s: StoreModel, id: usize, i: int, j: int)
    requires
        s.finite(),
        0 <= i < s.external_list(id).len(),
        0 <= j < s.external_list(id).len(),
        s.external_list(id)[i].0.is_prefix_of(s.external_list(id)[j].0),
        s.external_list(id)[i].0 != s.external_list(id)[j].0,
    ensures
        i < j,
{
    let members = Set::new(|path: AbsKey| s.uses(id, path) && s.external.contains_key(path));
    lemma_external_members(s, id);
    lemma_in_order_members::<AbsPath>(members);
    let keys = in_order::<AbsPath>(members);
    crate::paths::lemma_ancestor_before(keys[i], keys[j]);
    if j < i {
        crate::order::lemma_before_transitive(
            AbsPath::ranked_by(keys[i]),
            AbsPath::ranked_by(keys[j]),
            AbsPath::ranked_by(keys[i]),
        );
        crate::order::lemma_before_irreflexive(AbsPath::ranked_by(keys[i]));
    }
}

/// A file in a directory of a worktree is listed before the files further inwards.
pub proof fn law_outer_worktree_files_first(s: StoreModel, id: usize, i: int, j: int)
    requires
        s.finite(),
        0 <= i < s.internal_list(id).len(),
        0 <= j < s.internal_list(id).len(),
        s.internal_list(id)[i].0.is_prefix_of(s.internal_list(id)[j].0),
        s.internal_list(id)[i].0 != s.internal_list(id)[j].0,
    ensures
        i < j,
{
    assert(s.worktree(id).internal.dom().finite());
    lemma_in_order_members::<RelPath>(s.worktree(id).internal.dom());
    let keys = in_order::<RelPath>(s.worktree(id).internal.dom());
    crate::paths::lemma_worktree_ancestor_before(keys[i], keys[j]);
    if j < i {
        crate::order::lemma_before_transitive(
            RelPath::ranked_by(keys[i]),
            RelPath::ranked_by(keys[j]),
            RelPath::ranked_by(keys[i]),
        );
        crate::order::lemma_before_irreflexive(RelPath::ranked_by(keys[i]));
    }
}

/// The number of leading files is known once a file is reached whose directory does not lead
/// to the path.
pub proof fn lemma_leading(list: Seq<(RelKey, ConfigModel)>, path: RelKey, i: int)
    requires
        0 <= i <= list.len(),
        forall|j: int| 0 <= j < i ==> (#[trigger] list[j]).0.is_prefix_of(path),
    ensures
        i <= leading(list, path) <= list.len(),
        i == list.len() || !list[i].0.is_prefix_of(path) ==> leading(list, path) == i,
        forall|j: int|
            0 <= j < leading(list, path) ==> (#[trigger] list[j]).0.is_prefix_of(path),
    decreases list.len(),
{
    if list.len() > 0 {
        let rest = list.drop_first();
        if list[0].0.is_prefix_of(path) {
            let k = if i > 0 { i - 1 } else { 0 };
            assert forall|j: int| 0 <= j < k implies (#[trigger] rest[j]).0.is_prefix_of(path) by {
                assert(rest[j] == list[j + 1]);
            }
            lemma_leading(rest, path, k);
            assert forall|j: int| 0 <= j < leading(list, path) implies (
            #[trigger] list[j]).0.is_prefix_of(path) by {
                if j > 0 {
                    assert(rest[j - 1] == list[j]);
                }
            }
        } else {
            assert(i == 0);
        }
    }
}

/// Only files in directories that lead to a path are consulted for it; where all files of the
/// worktree are in such directories, all are.
pub proof fn law_enclosing_files_are_consulted(s: StoreModel, id: usize, path: RelKey)
    ensures
        forall|i: int|
            0 <= i < s.consulted(id, path).len() ==> (#[trigger] s.consulted(
                id,
                path,
            )[i]).0.is_prefix_of(path),
        (forall|i: int|
            0 <= i < s.internal_list(id).len() ==> (#[trigger] s.internal_list(
                id,
            )[i]).0.is_prefix_of(path)) ==> s.consulted(id, path) == s.internal_list(id),
{
    let list = s.internal_list(id);
    lemma_leading(list, path, 0);
    assert forall|i: int| 0 <= i < s.consulted(id, path).len() implies (#[trigger] s.consulted(
        id,
        path,
    )[i]).0.is_prefix_of(path) by {
        assert(s.consulted(id, path)[i] == list[i]);
    }
    if forall|i: int| 0 <= i < list.len() ==> (#[trigger] list[i]).0.is_prefix_of(path) {
        lemma_leading(list, path, list.len() as int);
        assert(s.consulted(id, path) =~= list);
    }
}

/// A root file in the worktree's own root directory keeps all files outside of the worktree from
/// having a say.
pub proof fn law_own_root_hides_external(s: StoreModel, t: StoreModel, id: usize, path: RelKey)
    requires
        s.is_own_root(id),
        t.worktree(id).internal == s.worktree(id).internal,
    ensures
        t.governing(id, path) == s.governing(id, path),
{
    assert(t.internal_list(id) =~= s.internal_list(id));
    assert(t.consulted(id, path) =~= s.consulted(id, path));
}

/// A root file hides what is below it.
pub proof fn lemma_root_hides(below: Seq<SectionModel>, configs: Seq<ConfigModel>, k: int)
    requires
        0 <= k < configs.len(),
        crate::model::is_root(configs[k].parsed),
    ensures
        stacked(below, configs) == stacked(Seq::empty(), configs.skip(k)),
    decreases configs.len(),
{
    let upper = configs.skip(k);
    assert(upper.last() == configs.last());
    if k < configs.len() - 1 {
        lemma_root_hides(below, configs.drop_last(), k);
        assert(configs.drop_last().skip(k) =~= upper.drop_last());
    }
}

/// A root file that is consulted keeps all files outside of the worktree, and those in the
/// directories around it, from having a say.
pub proof fn law_root_hides_outer_files(s: StoreModel, id: usize, path: RelKey, k: int)
    requires
        0 <= k < s.consulted(id, path).len(),
        crate::model::is_root(s.consulted(id, path)[k].1.parsed),
        s.governing(id, path) is Some,
    ensures
        s.governing(id, path) == Some(
            stacked(Seq::empty(), configs_of(s.consulted(id, path).skip(k))),
        ),
{
    let configs = configs_of(s.consulted(id, path));
    let outer = if s.is_own_root(id) {
        Seq::empty()
    } else {
        stacked(Seq::empty(), configs_of(s.external_list(id)))
    };
    lemma_root_hides(outer, configs, k);
    assert(configs.skip(k) =~= configs_of(s.consulted(id, path).skip(k)));
}

/// Of the files outside of the worktree, a root file keeps those in the directories around it
/// from having a say.
pub proof fn law_root_hides_outer_external_files(s: StoreModel, id: usize, k: int)
    requires
        0 <= k < s.external_list(id).len(),
        crate::model::is_root(s.external_list(id)[k].1.parsed),
    ensures
        stacked(Seq::empty(), configs_of(s.external_list(id))) == stacked(
            Seq::empty(),
            configs_of(s.external_list(id).skip(k)),
        ),
{
    let configs = configs_of(s.external_list(id));
    lemma_root_hides(Seq::empty(), configs, k);
    assert(configs.skip(k) =~= configs_of(s.external_list(id).skip(k)));
}

/// The last of the files that are consulted for a path is the one nearest to it, and its sections
/// are the strongest.
pub proof fn law_nearest_file_is_strongest(s: StoreModel, id: usize, path: RelKey, i: int)
    requires
        s.finite(),
        s.governing(id, path) is Some,
        0 <= i < s.consulted(id, path).len(),
    ensures
        s.consulted(id, path)[i].0.is_prefix_of(s.consulted(id, path).last().0),
        s.consulted(id, path).last().1.parsed is Some,
        s.consulted(id, path).last().1.parsed->0.sections.is_suffix_of(s.governing(id, path)->0),
{
    let consulted = s.consulted(id, path);
    let list = s.internal_list(id);
    let n = consulted.len() - 1;
    lemma_leading(list, path, 0);
    assert(consulted[i] == list[i] && consulted[n] == list[n]);
    let a = list[i].0;
    let b = list[n].0;
    assert(a.is_prefix_of(path) && b.is_prefix_of(path));
    if a.len() > b.len() {
        assert(b =~= a.subrange(0, b.len() as int)) by {
            assert forall|j: int| 0 <= j < b.len() implies b[j] == a.subrange(
                0,
                b.len() as int,
            )[j] by {
                assert(path.subrange(0, b.len() as int)[j] == path[j]);
                assert(path.subrange(0, a.len() as int)[j] == path[j]);
            }
        }
        law_outer_worktree_files_first(s, id, n, i);
    }
    assert(a =~= b.subrange(0, a.len() as int)) by {
        assert forall|j: int| 0 <= j < a.len() implies a[j] == b.subrange(0, a.len() as int)[j] by {
            assert(path.subrange(0, b.len() as int)[j] == path[j]);
            assert(path.subrange(0, a.len() as int)[j] == path[j]);
        }
    }
    let configs = configs_of(consulted);
    assert(configs.last() == consulted.last().1);
    assert(configs[n].parsed is Some);
    let sections = configs.last().parsed->0.sections;
    let governing = s.governing(id, path)->0;
    assert(sections =~= governing.subrange(
        governing.len() - sections.len(),
        governing.len() as int,
    ));
}

/// Whether pairs say something of a property.
pub open spec fn mentions(pairs: Pairs, key: Seq<char>) -> bool {
    exists|i: int| key_at(pairs, key, i)
}

/// What the last of the pairs that are about a property say of it.
pub open spec fn assigns(pairs: Pairs, key: Seq<char>, value: Seq<char>) -> bool {
    exists|i: int|
        0 <= i < pairs.len() && #[trigger] pairs[i] == (key, value) && forall|j: int|
            i < j < pairs.len() ==> (#[trigger] pairs[j]).0 != key
}

/// What setting a property does to the values.
proof fn lemma_with_pair(pairs: Pairs, key: Seq<char>, value: Seq<char>, other: Seq<char>)
    requires
        distinct_keys(pairs),
    ensures
        distinct_keys(with_pair(pairs, key, value)),
        value_of(with_pair(pairs, key, value), other) == (if other == key {
            Some(value)
        } else {
            value_of(pairs, other)
        }),
{
    let result = with_pair(pairs, key, value);
    if exists|i: int| key_at(pairs, key, i) {
        let i = choose|i: int| key_at(pairs, key, i);
        assert(forall|j: int| 0 <= j < pairs.len() ==> (#[trigger] result[j]).0 == pairs[j].0);
        assert(key_at(result, key, i));
        let r = choose|r: int| key_at(result, key, r);
        assert(r == i) by {
            if r < i {
                assert(pairs[r].0 != pairs[i].0);
            } else if i < r {
                assert(pairs[i].0 != pairs[r].0);
            }
        }
    } else {
        assert(key_at(result, key, pairs.len() as int));
        let r = choose|r: int| key_at(result, key, r);
        if r < pairs.len() {
            assert(key_at(pairs, key, r));
        }
        assert forall|x: int, y: int| 0 <= x < y < result.len() implies (#[trigger] result[x]).0
            != (#[trigger] result[y]).0 by {
            if y == pairs.len() {
                assert(!key_at(pairs, key, x));
            }
        }
    }
    if other != key {
        if mentions(pairs, other) {
            let o = choose|o: int| key_at(pairs, other, o);
            assert(key_at(result, other, o));
            let q = choose|q: int| key_at(result, other, q);
            assert(key_at(pairs, other, q)) by {
                if q == pairs.len() {
                    assert(result[q].0 == key);
                }
            }
            assert(q == o) by {
                if q < o {
                    assert(pairs[q].0 != pairs[o].0);
                } else if o < q {
                    assert(pairs[o].0 != pairs[q].0);
                }
            }
            assert(result[q] == pairs[q]);
        } else {
            if mentions(result, other) {
                let q = choose|q: int| key_at(result, other, q);
                if q < pairs.len() {
                    assert(key_at(pairs, other, q));
                }
            }
        }
    }
}

/// What setting properties one after the other does to the values.
proof fn lemma_overlaid(pairs: Pairs, added: Pairs, key: Seq<char>)
    requires
        distinct_keys(pairs),
    ensures
        distinct_keys(overlaid(pairs, added)),
        !mentions(added, key) ==> value_of(overlaid(pairs, added), key) == value_of(pairs, key),
        forall|value: Seq<char>| #[trigger]
            assigns(added, key, value) ==> value_of(overlaid(pairs, added), key) == Some(value),
    decreases added.len(),
{
    if added.len() > 0 {
        let rest = added.drop_last();
        let n = added.len() - 1;
        lemma_overlaid(pairs, rest, key);
        lemma_with_pair(overlaid(pairs, rest), added.last().0, added.last().1, key);
        if !mentions(added, key) {
            assert(!key_at(added, key, n));
            if mentions(rest, key) {
                let i = choose|i: int| key_at(rest, key, i);
                assert(key_at(added, key, i));
            }
        }
        assert forall|value: Seq<char>| #[trigger] assigns(added, key, value) implies value_of(
            overlaid(pairs, added),
            key,
        ) == Some(value) by {
            let i = choose|i: int|
                0 <= i < added.len() && #[trigger] added[i] == (key, value) && forall|j: int|
                    i < j < added.len() ==> (#[trigger] added[j]).0 != key;
            if i < n {
                assert(rest[i] == (key, value));
                assert forall|j: int| i < j < rest.len() implies (#[trigger] rest[j]).0 != key by {
                    assert(added[j].0 != key);
                }
                assert(assigns(rest, key, value));
                assert(added[n].0 != key);
            }
        }
    }
}

/// Sections that are applied to a path leave no property with two values.
pub proof fn lemma_applied_distinct(sections: Seq<SectionModel>, path: Seq<char>)
    ensures
        distinct_keys(applied(sections, path)),
    decreases sections.len(),
{
    if sections.len() > 0 {
        lemma_applied_distinct(sections.drop_last(), path);
        lemma_overlaid(
            applied(sections.drop_last(), path),
            sections.last().1,
            Seq::<char>::empty(),
        );
    }
}

/// A property has the value that the strongest of the sections that apply to the path and are
/// about it gives it.
pub proof fn law_strongest_section_wins(
    sections: Seq<SectionModel>,
    path: Seq<char>,
    key: Seq<char>,
    value: Seq<char>,
    j: int,
)
    requires
        0 <= j < sections.len(),
        glob_matches(sections[j].0, path),
        assigns(sections[j].1, key, value),
        forall|k: int|
            j < k < sections.len() ==> !(glob_matches((#[trigger] sections[k]).0, path)
                && mentions(sections[k].1, key)),
    ensures
        value_of(applied(sections, path), key) == Some(value),
    decreases sections.len(),
{
    let rest = sections.drop_last();
    let n = sections.len() - 1;
    lemma_applied_distinct(rest, path);
    lemma_overlaid(applied(rest, path), sections.last().1, key);
    if j < n {
        assert forall|k: int| j < k < rest.len() implies !(glob_matches(
            (#[trigger] rest[k]).0,
            path,
        ) && mentions(rest[k].1, key)) by {
            assert(rest[k] == sections[k]);
        }
        law_strongest_section_wins(rest, path, key, value, j);
        assert(!(glob_matches(sections[n].0, path) && mentions(sections[n].1, key)));
    }
}

/// A property of which no section that applies to the path says anything has no value.
pub proof fn law_unmentioned_property_is_unset(
    sections: Seq<SectionModel>,
    path: Seq<char>,
    key: Seq<char>,
)
    requires
        forall|k: int|
            0 <= k < sections.len() ==> !(glob_matches((#[trigger] sections[k]).0, path)
                && mentions(sections[k].1, key)),
    ensures
        value_of(applied(sections, path), key) is None,
    decreases sections.len(),
{
    if sections.len() > 0 {
        let rest = sections.drop_last();
        let n = sections.len() - 1;
        assert forall|k: int| 0 <= k < rest.len() implies !(glob_matches(
            (#[trigger] rest[k]).0,
            path,
        ) && mentions(rest[k].1, key)) by {
            assert(rest[k] == sections[k]);
        }
        law_unmentioned_property_is_unset(rest, path, key);
        lemma_applied_distinct(rest, path);
        lemma_overlaid(applied(rest, path), sections.last().1, key);
        assert(!(glob_matches(sections[n].0, path) && mentions(sections[n].1, key)));
    }
}

/// What the file nearest to a path says of a property prevails over what any other file says.
pub proof fn law_nearest_file_wins(
    s: StoreModel,
    id: usize,
    path: RelKey,
    key: Seq<char>,
    value: Seq<char>,
    j: int,
)
    requires
        s.finite(),
        s.governing(id, path) is Some,
        s.consulted(id, path).len() > 0,
        ({
            let sections = s.consulted(id, path).last().1.parsed->0.sections;
            let text = slash_joined(path);
            &&& 0 <= j < sections.len()
            &&& glob_matches(sections[j].0, text)
            &&& assigns(sections[j].1, key, value)
            &&& forall|k: int|
                j < k < sections.len() ==> !(glob_matches((#[trigger] sections[k]).0, text)
                    && mentions(sections[k].1, key))
        }),
    ensures
        value_of(applied(s.governing(id, path)->0, slash_joined(path)), key) == Some(value),
{
    law_nearest_file_is_strongest(s, id, path, 0);
    let governing = s.governing(id, path)->0;
    let sections = s.consulted(id, path).last().1.parsed->0.sections;
    let text = slash_joined(path);
    let shift = governing.len() - sections.len();
    assert forall|k: int| 0 <= k < sections.len() implies #[trigger] governing[k + shift]
        == sections[k] by {
        assert(governing.subrange(shift, governing.len() as int)[k] == governing[k + shift]);
    }
    assert(governing[j + shift] == sections[j]);
    assert forall|k: int| j + shift < k < governing.len() implies !(glob_matches(
        (#[trigger] governing[k]).0,
        text,
    ) && mentions(governing[k].1, key)) by {
        assert(governing[(k - shift) + shift] == sections[k - shift]);
    }
    law_strongest_section_wins(governing, text, key, value, j + shift);
}

/// Fallbacks set no property but `indent_size` and `tab_width`, and leave no property with two
/// values.
pub proof fn law_fallbacks_keep_other_properties(pairs: Pairs, key: Seq<char>)
    requires
        distinct_keys(pairs),
    ensures
        distinct_keys(with_fallbacks(pairs)),
        key != "indent_size"@ && key != "tab_width"@ ==> value_of(with_fallbacks(pairs), key)
            == value_of(pairs, key),
{
    let size = text_of(pairs, "indent_size"@);
    let width = text_of(pairs, "tab_width"@);
    lemma_with_pair(pairs, "indent_size"@, width, key);
    lemma_with_pair(pairs, "indent_size"@, "tab"@, key);
    lemma_with_pair(pairs, "tab_width"@, size, key);
    lemma_with_pair(with_derived_sizes(pairs), "indent_size"@, "tab"@, key);
}

/// What fallbacks make of the two sizes. An indent size that was given stays as it is, unless it
/// is `tab` and there is a tab width, which it then takes; one that was not given is the tab
/// width, if that is known, or else `tab`, if lines are indented with tabs. A tab width that was
/// given stays as it is; one that was not given is the indent size, if that is known and is not
/// `tab`.
pub proof fn law_fallback_sizes(pairs: Pairs)
    requires
        distinct_keys(pairs),
    ensures
        ({
            let size = text_of(pairs, "indent_size"@);
            let width = text_of(pairs, "tab_width"@);
            let tabs = reads(text_of(pairs, "indent_style"@), "tab"@);
            &&& text_of(with_fallbacks(pairs), "indent_size"@) == (if reads(size, "tab"@) {
                if width.len() > 0 {
                    width
                } else {
                    "tab"@
                }
            } else if size.len() > 0 {
                size
            } else if width.len() > 0 && !reads(width, "unset"@) {
                width
            } else if tabs {
                "tab"@
            } else {
                Seq::empty()
            })
            &&& text_of(with_fallbacks(pairs), "tab_width"@) == (if width.len() > 0 {
                width
            } else if size.len() > 0 && !reads(size, "tab"@) {
                size
            } else {
                Seq::empty()
            })
        }),
{
    reveal_strlit("indent_size");
    reveal_strlit("indent_style");
    reveal_strlit("tab_width");
    reveal_strlit("tab");
    let size = text_of(pairs, "indent_size"@);
    let width = text_of(pairs, "tab_width"@);
    let derived = with_derived_sizes(pairs);
    assert("indent_size"@.len() == 11 && "indent_style"@.len() == 12 && "tab_width"@.len() == 9);
    assert(size.len() == 0 ==> size =~= Seq::<char>::empty());
    assert(width.len() == 0 ==> width =~= Seq::<char>::empty());
    assert(size.len() == 0 ==> !reads(size, "tab"@)) by {
        assert(size.map_values(|c: char| crate::outside::lower_case(c)).len() == size.len());
    }
    lemma_with_pair(pairs, "indent_size"@, width, "indent_size"@);
    lemma_with_pair(pairs, "indent_size"@, width, "tab_width"@);
    lemma_with_pair(pairs, "indent_size"@, width, "indent_style"@);
    lemma_with_pair(pairs, "indent_size"@, "tab"@, "indent_size"@);
    lemma_with_pair(pairs, "indent_size"@, "tab"@, "tab_width"@);
    lemma_with_pair(pairs, "indent_size"@, "tab"@, "indent_style"@);
    lemma_with_pair(pairs, "tab_width"@, size, "indent_size"@);
    lemma_with_pair(pairs, "tab_width"@, size, "tab_width"@);
    lemma_with_pair(pairs, "tab_width"@, size, "indent_style"@);
    lemma_with_pair(derived, "indent_size"@, "tab"@, "indent_size"@);
    lemma_with_pair(derived, "indent_size"@, "tab"@, "tab_width"@);
}

/// Where nothing is set, fallbacks set nothing.
pub proof fn law_fallbacks_of_nothing()
    ensures
        with_fallbacks(Seq::empty()) == Seq::<(Seq<char>, Seq<char>)>::empty(),
{
    reveal_strlit("tab");
    let none = Seq::<(Seq<char>, Seq<char>)>::empty();
    assert forall|key: Seq<char>| #[trigger] value_of(none, key) is None by {
        assert(forall|i: int| !key_at(none, key, i));
    }
    let empty = Seq::<char>::empty();
    assert(empty.map_values(|c: char| crate::outside::lower_case(c)).len() == 0);
    assert(!reads(empty, "tab"@));
}

/// The files that are consulted for a path are the files of the worktree at the start of its list,
/// up to the first whose directory does not lead to the path.
pub proof fn law_consulted_files(s: StoreModel, id: usize, path: RelKey)
    ensures
        ({
            let list = s.internal_list(id);
            let consulted = s.consulted(id, path);
            &&& consulted.is_prefix_of(list)
            &&& forall|i: int|
                0 <= i < consulted.len() ==> (#[trigger] consulted[i]).0.is_prefix_of(path)
            &&& consulted.len() < list.len() ==> !list[consulted.len() as int].0.is_prefix_of(path)
        }),
{
    let list = s.internal_list(id);
    lemma_leading(list, path, 0);
    lemma_leading(list, path, leading(list, path) as int);
    let consulted = s.consulted(id, path);
    assert(consulted =~= list.subrange(0, consulted.len() as int));
    if consulted.len() < list.len() && list[consulted.len() as int].0.is_prefix_of(path) {
        let n = consulted.len() as int;
        assert forall|j: int| 0 <= j < n + 1 implies (#[trigger] list[j]).0.is_prefix_of(path) by {
        }
        lemma_leading(list, path, n + 1);
    }
}

/// A path is governed by nothing that could be told if and only if a file that is consulted for it
/// could not be read. Files outside of the worktree that could not be read are passed over.
pub proof fn law_unreadable_files(s: StoreModel, id: usize, path: RelKey)
    ensures
        s.governing(id, path) is None <==> exists|i: int|
            0 <= i < s.consulted(id, path).len() && (#[trigger] s.consulted(
                id,
                path,
            )[i]).1.parsed is None,
{
    let consulted = s.consulted(id, path);
    let configs = configs_of(consulted);
    if exists|i: int| 0 <= i < configs.len() && (#[trigger] configs[i]).parsed is None {
        let i = choose|i: int| 0 <= i < configs.len() && (#[trigger] configs[i]).parsed is None;
        assert(consulted[i].1.parsed is None);
    }
    if exists|i: int| 0 <= i < consulted.len() && (#[trigger] consulted[i]).1.parsed is None {
        let i = choose|i: int| 0 <= i < consulted.len() && (#[trigger] consulted[i]).1.parsed is None;
        assert(configs[i].parsed is None);
    }
}

/// The sections that a file has, if it could be read.
pub open spec fn sections_in(config: ConfigModel) -> Seq<SectionModel> {
    match config.parsed {
        Some(editorconfig) => editorconfig.sections,
        None => Seq::empty(),
    }
}

/// Whether a file could be read and is a root file.
pub open spec fn says_root(config: ConfigModel) -> bool {
    config.parsed is Some && config.parsed->0.is_root
}

/// The files that have a say on a path: those outside of the worktree that count for it, and on
/// top of them those of the worktree that are consulted.
pub open spec fn having_a_say(s: StoreModel, id: usize, path: RelKey) -> Seq<ConfigModel> {
    s.external_list(id).map_values(|entry: (AbsKey, ConfigModel)| entry.1) + s.consulted(
        id,
        path,
    ).map_values(|entry: (RelKey, ConfigModel)| entry.1)
}

/// Of the files that have a say on a path, all from the last root file on govern it, wherever that
/// is, and all where there is no root file: the sections that govern the path are those of these
/// files, one file after the other.
pub proof fn law_governing_sections(s: StoreModel, id: usize, path: RelKey, k: int)
    requires
        s.finite(),
        forall|i: int|
            0 <= i < s.consulted(id, path).len() ==> (#[trigger] s.consulted(
                id,
                path,
            )[i]).1.parsed is Some,
        0 <= k <= having_a_say(s, id, path).len(),
        k > 0 ==> k < having_a_say(s, id, path).len() && says_root(having_a_say(s, id, path)[k]),
        forall|j: int|
            k < j < having_a_say(s, id, path).len() ==> !says_root(
                #[trigger] having_a_say(s, id, path)[j],
            ),
    ensures
        s.governing(id, path) == Some(
            having_a_say(s, id, path).skip(k).map_values(
                |config: ConfigModel| sections_in(config),
            ).flatten(),
        ),
{
    let files = having_a_say(s, id, path);
    let external = configs_of(s.external_list(id));
    let consulted = configs_of(s.consulted(id, path));
    let n = external.len() as int;
    assert(files =~= external + consulted);
    assert forall|i: int| 0 <= i < consulted.len() implies (#[trigger] consulted[i]).parsed is Some by {
        assert(s.consulted(id, path)[i].1.parsed is Some);
    }
    let outer = if s.is_own_root(id) {
        Seq::empty()
    } else {
        stacked(Seq::empty(), external)
    };
    assert(s.governing(id, path) == Some(stacked(outer, consulted)));
    if k >= n && k > 0 {
        assert(files[k] == consulted[k - n]);
        lemma_root_hides(outer, consulted, k - n);
        let upper = consulted.skip(k - n);
        assert(upper =~= files.skip(k));
        assert forall|j: int| 0 < j < upper.len() implies !says_root(#[trigger] upper[j]) by {
            assert(upper[j] == files[k + j]);
        }
        lemma_stacked_in_order(Seq::empty(), upper);
    } else {
        assert forall|j: int| 0 < j + n - k && 0 <= j < consulted.len() implies !says_root(
            #[trigger] consulted[j],
        ) by {
            assert(consulted[j] == files[n + j]);
        }
        if k < n {
            if s.is_own_root(id) {
                lemma_own_root_is_consulted(s, id, path);
                assert(says_root(consulted[0]));
            }
            let upper = external.skip(k);
            if k > 0 {
                assert(files[k] == external[k]);
                lemma_root_hides(Seq::empty(), external, k);
            } else {
                assert(upper =~= external);
            }
            assert forall|j: int| 0 < j < upper.len() implies !says_root(#[trigger] upper[j]) by {
                assert(upper[j] == files[k + j]);
            }
            lemma_stacked_in_order(Seq::empty(), upper);
            lemma_stacked_in_order(outer, consulted);
            assert(files.skip(k) =~= upper + consulted);
            let f = |config: ConfigModel| sections_in(config);
            assert((upper + consulted).map_values(f) =~= upper.map_values(f)
                + consulted.map_values(f));
            vstd::seq_lib::lemma_flatten_concat(upper.map_values(f), consulted.map_values(f));
            assert(Seq::<SectionModel>::empty() + upper.map_values(f).flatten()
                =~= upper.map_values(f).flatten());
        } else {
            assert(external =~= Seq::empty());
            assert(outer =~= Seq::empty());
            assert(files.skip(k) =~= consulted);
            lemma_stacked_in_order(outer, consulted);
            let f = |config: ConfigModel| sections_in(config);
            assert(outer + consulted.map_values(f).flatten() =~= consulted.map_values(
                f,
            ).flatten());
        }
    }
}

/// Where there is no root file above the lowest, files laid on top of others add their sections
/// one after the other.
proof fn lemma_stacked_in_order(below: Seq<SectionModel>, configs: Seq<ConfigModel>)
    requires
        forall|j: int| 0 < j < configs.len() ==> !says_root(#[trigger] configs[j]),
    ensures
        ({
            let flat = configs.map_values(|config: ConfigModel| sections_in(config)).flatten();
            stacked(below, configs) == (if configs.len() > 0 && says_root(configs[0]) {
                flat
            } else {
                below + flat
            })
        }),
    decreases configs.len(),
{
    let f = |config: ConfigModel| sections_in(config);
    if configs.len() == 0 {
        assert(configs.map_values(f) =~= Seq::empty());
        assert(below + Seq::<SectionModel>::empty() =~= below);
    } else {
        let rest = configs.drop_last();
        assert forall|j: int| 0 < j < rest.len() implies !says_root(#[trigger] rest[j]) by {
            assert(rest[j] == configs[j]);
        }
        lemma_stacked_in_order(below, rest);
        assert(configs.map_values(f) =~= rest.map_values(f).push(sections_in(configs.last())));
        rest.map_values(f).lemma_flatten_push(sections_in(configs.last()));
        let flat = rest.map_values(f).flatten();
        let top = sections_in(configs.last());
        assert(below + flat + top =~= below + (flat + top));
        assert(flat + Seq::<SectionModel>::empty() =~= flat);
        assert(below + flat + Seq::<SectionModel>::empty() =~= below + flat);
        if rest.len() > 0 {
            assert(rest[0] == configs[0]);
            assert(!says_root(configs[configs.len() - 1]));
        } else {
            assert(rest.map_values(f) =~= Seq::empty());
            assert(Seq::<SectionModel>::empty() + top =~= top);
        }
    }
}

/// A file in the worktree's own root directory is consulted first for every path.
proof fn lemma_own_root_is_consulted(s: StoreModel, id: usize, path: RelKey)
    requires
        s.finite(),
        s.worktree(id).internal.contains_key(Seq::empty()),
    ensures
        s.consulted(id, path).len() > 0,
        s.consulted(id, path)[0].1 == s.worktree(id).internal[Seq::empty()],
{
    let internal = s.worktree(id).internal;
    let root = Seq::<Seq<char>>::empty();
    assert(internal.dom().finite());
    lemma_in_order_members::<RelPath>(internal.dom());
    let keys = in_order::<RelPath>(internal.dom());
    assert(keys.contains(root));
    let i = choose|i: int| 0 <= i < keys.len() && keys[i] == root;
    let list = s.internal_list(id);
    assert(list[i].0 == root);
    assert(root =~= list[0].0.subrange(0, 0));
    if list[0].0 != root {
        law_outer_worktree_files_first(s, id, i, 0);
    }
    assert(root =~= path.subrange(0, 0));
    lemma_leading(list, path, 1);
}

/// Without a root file anywhere, all sections of the files outside of the worktree that could be
/// read govern a path, in the order of the list, and then all sections of the files that are
/// consulted for it, whether or not the worktree has a file in its own root directory.
pub proof fn law_all_files_govern(s: StoreModel, id: usize, path: RelKey)
    requires
        s.finite(),
        forall|i: int|
            0 <= i < s.external_list(id).len() ==> !says_root(
                (#[trigger] s.external_list(id)[i]).1,
            ),
        forall|i: int|
            0 <= i < s.consulted(id, path).len() ==> (#[trigger] s.consulted(
                id,
                path,
            )[i]).1.parsed is Some && !says_root(s.consulted(id, path)[i].1),
    ensures
        s.governing(id, path) == Some(
            s.external_list(id).map_values(
                |entry: (AbsKey, ConfigModel)| sections_in(entry.1),
            ).flatten() + s.consulted(id, path).map_values(
                |entry: (RelKey, ConfigModel)| sections_in(entry.1),
            ).flatten(),
        ),
{
    let files = having_a_say(s, id, path);
    let external = s.external_list(id);
    let consulted = s.consulted(id, path);
    assert forall|j: int| 0 < j < files.len() implies !says_root(#[trigger] files[j]) by {
        if j < external.len() {
            assert(files[j] == external[j].1);
        } else {
            assert(files[j] == consulted[j - external.len()].1);
        }
    }
    law_governing_sections(s, id, path, 0);
    let outer = external.map_values(|entry: (AbsKey, ConfigModel)| sections_in(entry.1));
    let inner = consulted.map_values(|entry: (RelKey, ConfigModel)| sections_in(entry.1));
    assert(files.skip(0).map_values(|config: ConfigModel| sections_in(config)) =~= outer + inner);
    vstd::seq_lib::lemma_flatten_concat(outer, inner);
}

/// Sections are applied one after the other, each on top of what the earlier ones set: a section
/// whose pattern matches the path sets its properties in turn, and one whose pattern does not
/// changes nothing.
pub proof fn law_sections_apply_in_turn(
    sections: Seq<SectionModel>,
    section: SectionModel,
    path: Seq<char>,
)
    ensures
        applied(Seq::empty(), path) == Seq::<(Seq<char>, Seq<char>)>::empty(),
        glob_matches(section.0, path) ==> applied(sections.push(section), path) == overlaid(
            applied(sections, path),
            section.1,
        ),
        !glob_matches(section.0, path) ==> applied(sections.push(section), path) == applied(
            sections,
            path,
        ),
{
    assert(sections.push(section).drop_last() =~= sections);
}

} // verus!
