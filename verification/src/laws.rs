//! What holds of the store across its operations.
use vstd::prelude::*;

use crate::config::parsed;
use crate::model::{no_config, AbsKey, ConfigModel, RelKey, StoreModel};
use crate::paths::{AbsPath, LocalPathModel, RelPath};
use crate::sorted_map::{in_order, lemma_in_order_members};

verus! {

/// A file says what its text says.
pub open spec fn exact(config: ConfigModel) -> bool {
    config.parsed == parsed(config.content)
}

/// A file says what its text says; one without text may also say nothing.
pub open spec fn sound(config: ConfigModel) -> bool {
    exact(config) || (config.content.len() == 0 && config.parsed is None)
}

impl StoreModel {
    /// Finitely many files are known.
    pub open spec fn finite(self) -> bool {
        &&& self.external.dom().finite()
        &&& forall|id: usize|
            self.worktrees.contains_key(id) ==> {
                &&& (#[trigger] self.worktrees[id]).internal.dom().finite()
                &&& self.worktrees[id].external_paths matches Some(paths) ==> paths.finite()
            }
    }

    /// Each file says what its text says.
    pub open spec fn sound(self) -> bool {
        &&& forall|path: AbsKey| #[trigger]
            self.external.contains_key(path) ==> sound(self.external[path].config)
        &&& forall|id: usize, path: RelKey|
            self.worktrees.contains_key(id) && #[trigger] self.worktrees[id].internal.contains_key(
                path,
            ) ==> exact(self.worktrees[id].internal[path])
    }

    /// Each file outside of the worktrees counts for some worktree.
    pub open spec fn tidy(self) -> bool {
        forall|path: AbsKey| #[trigger] self.external.contains_key(path) ==> self.in_use(path)
    }
}

/// The known directories that count for a worktree can be put in order.
pub proof fn lemma_external_members(s: StoreModel, id: usize)
    requires
        s.finite(),
    ensures
        ({
            let members = Set::new(
                |path: AbsKey| s.uses(id, path) && s.external.contains_key(path),
            );
            &&& members.finite()
            &&& forall|path: AbsKey| #[trigger]
                in_order::<AbsPath>(members).contains(path) <==> members.contains(path)
        }),
{
    let members = Set::new(|path: AbsKey| s.uses(id, path) && s.external.contains_key(path));
    assert(members.subset_of(s.external.dom()));
    vstd::set_lib::lemma_set_subset_finite(s.external.dom(), members);
    lemma_in_order_members::<AbsPath>(members);
}

/// A file in a worktree that was reported with a text is then listed with that text and with
/// what the text says.
pub proof fn law_reported_file_is_listed(s: StoreModel, id: usize, path: RelKey, content: Seq<char>)
    requires
        s.finite(),
        s.sound(),
    ensures
        s.reported(id, LocalPathModel::InWorktree(path), Some(content)).list(id).contains(
            (
                LocalPathModel::InWorktree(path),
                ConfigModel { content, parsed: parsed(content) },
            ),
        ),
{
    let dir = LocalPathModel::InWorktree(path);
    let t = s.reported(id, dir, Some(content));
    let config = ConfigModel { content, parsed: parsed(content) };
    assert(t.worktree(id).internal.contains_key(path) && t.worktree(id).internal[path] == config);
    assert(t.worktree(id).internal.dom().finite()) by {
        assert(s.worktree(id).internal.dom().finite());
        if !s.holds(id, dir, content) {
            assert(t.worktree(id).internal.dom() =~= s.worktree(id).internal.dom().insert(path));
        }
    }
    lemma_in_order_members::<RelPath>(t.worktree(id).internal.dom());
    let keys = in_order::<RelPath>(t.worktree(id).internal.dom());
    assert(keys.contains(path));
    let i = choose|i: int| 0 <= i < keys.len() && keys[i] == path;
    assert(t.internal_list(id)[i] == (path, config));
    let n = t.external_list(id).len();
    assert(t.list(id)[n + i] == (dir, config));
}

/// A file outside of the worktrees that was reported with a new text is then listed, for the
/// worktree that it was reported for, with that text and with what the text says.
pub proof fn law_reported_external_file_is_listed(
    s: StoreModel,
    id: usize,
    path: AbsKey,
    content: Seq<char>,
)
    requires
        s.finite(),
        !s.holds(id, LocalPathModel::OutsideWorktree(path), content),
    ensures
        s.reported(id, LocalPathModel::OutsideWorktree(path), Some(content)).list(id).contains(
            (
                LocalPathModel::OutsideWorktree(path),
                ConfigModel { content, parsed: parsed(content) },
            ),
        ),
{
    let dir = LocalPathModel::OutsideWorktree(path);
    let t = s.reported(id, dir, Some(content));
    let config = ConfigModel { content, parsed: parsed(content) };
    law_reports_keep_finite(s, id, dir, Some(content));
    lemma_external_members(t, id);
    let members = Set::new(|path: AbsKey| t.uses(id, path) && t.external.contains_key(path));
    let keys = in_order::<AbsPath>(members);
    assert(t.uses(id, path));
    assert(members.contains(path));
    assert(keys.contains(path));
    let i = choose|i: int| 0 <= i < keys.len() && keys[i] == path;
    assert(t.external_list(id)[i] == (path, config));
    assert(t.list(id)[i] == (dir, config));
}

/// A file that was reported to be gone is not there.
pub proof fn law_reported_gone(s: StoreModel, id: usize, dir: LocalPathModel)
    ensures
        s.reported(id, dir, None).config_at(id, dir) is None,
{
}

/// A report that is repeated changes nothing more, and is not refused even where it was at first.
pub proof fn law_repeated_report(
    s: StoreModel,
    id: usize,
    dir: LocalPathModel,
    content: Option<Seq<char>>,
)
    ensures
        s.reported(id, dir, content).reported(id, dir, content) == s.reported(id, dir, content),
        !s.reported(id, dir, content).refused(id, dir, content),
{
    let t = s.reported(id, dir, content);
    match content {
        None => {
            let u = t.without_config(id, dir);
            if t.worktrees.contains_key(id) {
                assert(u.worktrees[id].internal =~= t.worktrees[id].internal);
                match dir {
                    LocalPathModel::OutsideWorktree(path) => {
                        if t.worktrees[id].external_paths is Some {
                            assert(u.worktrees[id].external_paths->0
                                =~= t.worktrees[id].external_paths->0);
                        }
                    },
                    _ => {},
                }
                assert(u.worktrees[id] =~= t.worktrees[id]);
            }
            assert(u.worktrees =~= t.worktrees);
            assert(u.external =~= t.external);
        },
        Some(content) => {
            assert(t.holds(id, dir, content));
        },
    }
}

/// A report on a file in a worktree leaves the other worktrees, and all files outside of the
/// worktrees, as they were.
pub proof fn law_internal_report_is_local(
    s: StoreModel,
    id: usize,
    path: RelKey,
    content: Option<Seq<char>>,
    other: usize,
    other_path: RelKey,
)
    requires
        s.finite(),
        other != id,
    ensures
        ({
            let t = s.reported(id, LocalPathModel::InWorktree(path), content);
            &&& t.external == s.external
            &&& t.worktree(other) == s.worktree(other)
            &&& t.list(other) == s.list(other)
            &&& t.governing(other, other_path) == s.governing(other, other_path)
            &&& t.worktree(id).external_paths == s.worktree(id).external_paths
        }),
{
    let t = s.reported(id, LocalPathModel::InWorktree(path), content);
    lemma_same_lists(s, t, other);
}

/// A report on a file outside of the worktrees leaves the list of files and the sections that
/// govern a path as they were for every worktree that the file counts for neither before nor
/// after.
pub proof fn law_external_report_is_local(
    s: StoreModel,
    id: usize,
    path: AbsKey,
    content: Option<Seq<char>>,
    other: usize,
    other_path: RelKey,
)
    requires
        s.finite(),
        !s.uses(other, path),
        !s.reported(id, LocalPathModel::OutsideWorktree(path), content).uses(other, path),
    ensures
        ({
            let t = s.reported(id, LocalPathModel::OutsideWorktree(path), content);
            &&& t.worktree(other) == s.worktree(other)
            &&& t.list(other) == s.list(other)
            &&& t.governing(other, other_path) == s.governing(other, other_path)
        }),
{
    let t = s.reported(id, LocalPathModel::OutsideWorktree(path), content);
    if other == id && s.worktrees.contains_key(id) {
        if s.worktrees[id].external_paths is Some {
            let paths = s.worktrees[id].external_paths->0;
            assert(paths.remove(path) =~= paths);
        }
    }
    assert(t.worktree(other) =~= s.worktree(other));
    assert forall|p: AbsKey| #[trigger] s.uses(other, p) == t.uses(other, p) by {}
    lemma_same_lists(s, t, other);
}

/// A worktree that a file outside of the worktrees is reported for counts it afterwards if and
/// only if it counted it before and the file is not gone, or the text is new; for another worktree
/// the file counts afterwards if and only if it did before.
pub proof fn law_external_report_counts(
    s: StoreModel,
    id: usize,
    path: AbsKey,
    content: Option<Seq<char>>,
    other: usize,
)
    ensures
        ({
            let dir = LocalPathModel::OutsideWorktree(path);
            let now = s.reported(id, dir, content).uses(other, path);
            if other != id {
                now == s.uses(other, path)
            } else {
                now == (content matches Some(text) && (s.uses(id, path) || !s.holds(id, dir, text)))
            }
        }),
{
}

/// A report on a file outside of the worktrees holds for every worktree that the file counts for:
/// it is listed there with its new text, or no longer listed.
pub proof fn law_external_report_is_shared(
    s: StoreModel,
    id: usize,
    path: AbsKey,
    content: Option<Seq<char>>,
    other: usize,
)
    requires
        s.finite(),
        s.sound(),
        s.uses(other, path),
        content == Some(Seq::<char>::empty()) && s.external.contains_key(path)
            ==> s.external[path].config != no_config(),
    ensures
        ({
            let dir = LocalPathModel::OutsideWorktree(path);
            let list = s.reported(id, dir, content).list(other);
            match content {
                Some(content) => list.contains(
                    (dir, ConfigModel { content, parsed: parsed(content) }),
                ),
                None => forall|i: int| 0 <= i < list.len() ==> (#[trigger] list[i]).0 != dir,
            }
        }),
{
    let dir = LocalPathModel::OutsideWorktree(path);
    let t = s.reported(id, dir, content);
    law_reports_keep_finite(s, id, dir, content);
    lemma_external_members(t, other);
    let members = Set::new(|path: AbsKey| t.uses(other, path) && t.external.contains_key(path));
    let keys = in_order::<AbsPath>(members);
    assert(keys.contains(path) <==> members.contains(path));
    match content {
        Some(content) => {
            let config = ConfigModel { content, parsed: parsed(content) };
            assert(t.uses(other, path));
            assert(t.external.contains_key(path) && t.external[path].config == config) by {
                if s.holds(id, dir, content) {
                    let held = s.external[path].config;
                    assert(sound(held));
                    if !exact(held) {
                        assert(content =~= Seq::<char>::empty());
                        assert(held == no_config());
                    }
                }
            }
            assert(members.contains(path));
            let i = choose|i: int| 0 <= i < keys.len() && keys[i] == path;
            assert(t.external_list(other)[i] == (path, config));
            assert(t.list(other)[i] == (dir, config));
        },
        None => {
            let list = t.list(other);
            assert forall|i: int| 0 <= i < list.len() implies (#[trigger] list[i]).0 != dir by {
                if i < keys.len() {
                    assert(list[i].0 == LocalPathModel::OutsideWorktree(keys[i]));
                    assert(keys.contains(keys[i]));
                }
            }
        },
    }
}

/// A report leaves every file but the one that it is on as it was.
pub proof fn law_report_keeps_other_files(
    s: StoreModel,
    id: usize,
    dir: LocalPathModel,
    content: Option<Seq<char>>,
    other_id: usize,
    other: LocalPathModel,
)
    requires
        other != dir || (dir is InWorktree && other_id != id),
    ensures
        s.reported(id, dir, content).config_at(other_id, other) == s.config_at(other_id, other),
{
}

/// A list depends on the worktree and on the files that count for it.
pub proof fn lemma_same_lists(s: StoreModel, t: StoreModel, id: usize)
    requires
        s.finite(),
        t.worktree(id) == s.worktree(id),
        forall|path: AbsKey| s.uses(id, path) || t.uses(id, path) ==> #[trigger]
            t.external.contains_key(path) == s.external.contains_key(path)
            && (s.external.contains_key(path) ==> t.external[path].config
                == s.external[path].config),
        forall|path: AbsKey| #[trigger] s.uses(id, path) == t.uses(id, path),
    ensures
        t.external_list(id) == s.external_list(id),
        t.internal_list(id) == s.internal_list(id),
        t.list(id) == s.list(id),
{
    let a = Set::new(|path: AbsKey| s.uses(id, path) && s.external.contains_key(path));
    let b = Set::new(|path: AbsKey| t.uses(id, path) && t.external.contains_key(path));
    assert forall|path: AbsKey| a.contains(path) == b.contains(path) by {
        assert(s.uses(id, path) == t.uses(id, path));
    }
    assert(a =~= b);
    lemma_external_members(s, id);
    lemma_same_external(s, t, a, id);
    assert(t.internal_list(id) =~= s.internal_list(id));
    assert(t.list(id) =~= s.list(id));
}

proof fn lemma_same_external(s: StoreModel, t: StoreModel, members: Set<AbsKey>, id: usize)
    requires
        members == Set::new(|path: AbsKey| s.uses(id, path) && s.external.contains_key(path)),
        members == Set::new(|path: AbsKey| t.uses(id, path) && t.external.contains_key(path)),
        forall|path: AbsKey| #[trigger] members.contains(path) ==> t.external[path].config
            == s.external[path].config,
        members.finite(),
    ensures
        t.external_list(id) == s.external_list(id),
{
    lemma_in_order_members::<AbsPath>(members);
    let keys = in_order::<AbsPath>(members);
    assert forall|i: int| 0 <= i < keys.len() implies t.external_list(id)[i] == s.external_list(
        id,
    )[i] by {
        assert(keys.contains(keys[i]));
    }
    assert(t.external_list(id) =~= s.external_list(id));
}

/// Reports leave finitely many files known.
pub proof fn law_reports_keep_finite(
    s: StoreModel,
    id: usize,
    dir: LocalPathModel,
    content: Option<Seq<char>>,
)
    requires
        s.finite(),
    ensures
        s.reported(id, dir, content).finite(),
{
    let t = s.reported(id, dir, content);
    match dir {
        LocalPathModel::InWorktree(path) => {
            if t.worktrees.contains_key(id) {
                assert(t.worktrees[id].internal.dom().subset_of(
                    s.worktree(id).internal.dom().insert(path),
                ));
                vstd::set_lib::lemma_set_subset_finite(
                    s.worktree(id).internal.dom().insert(path),
                    t.worktrees[id].internal.dom(),
                );
            }
        },
        LocalPathModel::OutsideWorktree(path) => {
            assert(t.external.dom().subset_of(s.external.dom().insert(path)));
            vstd::set_lib::lemma_set_subset_finite(
                s.external.dom().insert(path),
                t.external.dom(),
            );
        },
    }
    assert forall|other: usize| t.worktrees.contains_key(other) implies {
        &&& (#[trigger] t.worktrees[other]).internal.dom().finite()
        &&& t.worktrees[other].external_paths matches Some(paths) ==> paths.finite()
    } by {
        if other != id {
            assert(t.worktrees[other] == s.worktrees[other]);
        } else {
            assert(s.worktree(id).internal.dom().finite());
            assert(s.worktree(id).external_paths matches Some(paths) ==> paths.finite());
        }
    }
}

/// Reports leave each file saying what its text says.
pub proof fn law_reports_keep_sound(
    s: StoreModel,
    id: usize,
    dir: LocalPathModel,
    content: Option<Seq<char>>,
)
    requires
        s.sound(),
    ensures
        s.reported(id, dir, content).sound(),
{
    let t = s.reported(id, dir, content);
    assert forall|path: AbsKey| #[trigger] t.external.contains_key(path) implies sound(
        t.external[path].config,
    ) by {
        assert(t.external[path] == s.external[path] && s.external.contains_key(path) || exact(
            t.external[path].config,
        ));
    }
    assert forall|other: usize, path: RelKey|
        t.worktrees.contains_key(other) && #[trigger] t.worktrees[other].internal.contains_key(
            path,
        ) implies exact(t.worktrees[other].internal[path]) by {
        if s.worktrees.contains_key(other) && s.worktrees[other].internal.contains_key(path) {
            assert(exact(s.worktrees[other].internal[path]));
        }
    }
}

/// Reports leave each file outside of the worktrees counting for some worktree.
pub proof fn law_reports_keep_tidy(
    s: StoreModel,
    id: usize,
    dir: LocalPathModel,
    content: Option<Seq<char>>,
)
    requires
        s.tidy(),
    ensures
        s.reported(id, dir, content).tidy(),
{
    let t = s.reported(id, dir, content);
    assert forall|path: AbsKey| #[trigger] t.external.contains_key(path) implies t.in_use(path) by {
        if s.external.contains_key(path) {
            let user = choose|user: usize| #[trigger] s.uses(user, path);
            assert(s.uses(user, path));
            assert(t.uses(user, path));
        } else {
            assert(t.uses(id, path));
        }
    }
}

/// In the empty store nothing is listed.
pub proof fn law_empty_store(id: usize)
    ensures
        StoreModel::empty().finite(),
        StoreModel::empty().sound(),
        StoreModel::empty().tidy(),
        StoreModel::empty().list(id) == Seq::<(LocalPathModel, ConfigModel)>::empty(),
{
    lemma_nothing_listed(StoreModel::empty(), id);
}

/// Nothing is listed for a worktree of which nothing is known.
proof fn lemma_nothing_listed(s: StoreModel, id: usize)
    requires
        !s.worktrees.contains_key(id),
    ensures
        s.external_list(id) == Seq::<(AbsKey, ConfigModel)>::empty(),
        s.internal_list(id) == Seq::<(RelKey, ConfigModel)>::empty(),
        s.list(id) == Seq::<(LocalPathModel, ConfigModel)>::empty(),
{
    let members = Set::new(|path: AbsKey| s.uses(id, path) && s.external.contains_key(path));
    assert(members =~= Set::empty());
    lemma_in_order_members::<AbsPath>(members);
    let outer = in_order::<AbsPath>(members);
    assert(outer.len() == 0) by {
        if outer.len() > 0 {
            assert(outer.contains(outer[0]));
        }
    }
    let internal = s.worktree(id).internal.dom();
    assert(internal =~= Set::empty());
    lemma_in_order_members::<RelPath>(internal);
    let inner = in_order::<RelPath>(internal);
    assert(inner.len() == 0) by {
        if inner.len() > 0 {
            assert(inner.contains(inner[0]));
        }
    }
    assert(s.list(id) =~= Seq::<(LocalPathModel, ConfigModel)>::empty());
    assert(s.external_list(id) =~= Seq::<(AbsKey, ConfigModel)>::empty());
    assert(s.internal_list(id) =~= Seq::<(RelKey, ConfigModel)>::empty());
}

/// To forget a worktree changes nothing for another one: neither its files nor the sections that
/// govern its paths.
pub proof fn law_removal_spares_other_worktrees(
    s: StoreModel,
    id: usize,
    other: usize,
    path: RelKey,
)
    requires
        s.finite(),
        other != id,
    ensures
        s.without_worktree(id).worktree(other) == s.worktree(other),
        s.without_worktree(id).list(other) == s.list(other),
        s.without_worktree(id).governing(other, path) == s.governing(other, path),
{
    let t = s.without_worktree(id);
    let rest = StoreModel { worktrees: s.worktrees.remove(id), ..s };
    assert forall|p: AbsKey| #[trigger] s.uses(other, p) == t.uses(other, p) by {}
    assert forall|p: AbsKey| s.uses(other, p) || t.uses(other, p) implies #[trigger]
        t.external.contains_key(p) == s.external.contains_key(p) && (s.external.contains_key(p)
        ==> t.external[p].config == s.external[p].config) by {
        assert(s.uses(other, p));
        assert(rest.uses(other, p));
        assert(rest.in_use(p));
    }
    lemma_same_lists(s, t, other);
}

/// Of a worktree that was forgotten nothing is listed, no section governs its paths, and no file
/// is kept that counted for it alone.
pub proof fn law_removal_is_complete(s: StoreModel, id: usize, path: RelKey, file: AbsKey)
    ensures
        ({
            let t = s.without_worktree(id);
            &&& !t.worktrees.contains_key(id)
            &&& t.list(id) == Seq::<(LocalPathModel, ConfigModel)>::empty()
            &&& t.governing(id, path) == Some(Seq::<crate::outside::SectionModel>::empty())
            &&& s.uses(id, file) && t.external.contains_key(file) ==> t.in_use(file)
            &&& !s.uses(id, file) ==> (t.external.contains_key(file)
                <==> s.external.contains_key(file))
        }),
{
    let t = s.without_worktree(id);
    let rest = StoreModel { worktrees: s.worktrees.remove(id), ..s };
    lemma_nothing_listed(t, id);
    assert(crate::model::configs_of(t.external_list(id)) =~= Seq::<ConfigModel>::empty());
    assert(crate::model::configs_of(t.consulted(id, path)) =~= Seq::<ConfigModel>::empty());
    assert(t.worktree(id).internal.get(Seq::empty()) is None);
    if s.uses(id, file) && t.external.contains_key(file) {
        assert(rest.in_use(file));
        let user = choose|user: usize| #[trigger] rest.uses(user, file);
        assert(t.uses(user, file));
    }
}

/// To forget a worktree leaves finitely many files known, each saying what its text says, and each
/// file outside of the worktrees counting for some worktree.
pub proof fn law_removal_keeps_invariants(s: StoreModel, id: usize)
    ensures
        s.finite() ==> s.without_worktree(id).finite(),
        s.sound() ==> s.without_worktree(id).sound(),
        s.tidy() ==> s.without_worktree(id).tidy(),
{
    let t = s.without_worktree(id);
    let rest = StoreModel { worktrees: s.worktrees.remove(id), ..s };
    if s.finite() {
        assert(t.external.dom().subset_of(s.external.dom()));
        vstd::set_lib::lemma_set_subset_finite(s.external.dom(), t.external.dom());
        assert forall|other: usize| t.worktrees.contains_key(other) implies {
            &&& (#[trigger] t.worktrees[other]).internal.dom().finite()
            &&& t.worktrees[other].external_paths matches Some(paths) ==> paths.finite()
        } by {
            assert(t.worktrees[other] == s.worktrees[other]);
        }
    }
    if s.sound() {
        assert forall|path: AbsKey| #[trigger] t.external.contains_key(path) implies sound(
            t.external[path].config,
        ) by {
            assert(s.external.contains_key(path));
        }
        assert forall|other: usize, path: RelKey|
            t.worktrees.contains_key(other) && #[trigger] t.worktrees[other].internal.contains_key(
                path,
            ) implies exact(t.worktrees[other].internal[path]) by {
            assert(s.worktrees[other].internal.contains_key(path));
        }
    }
    if s.tidy() {
        assert forall|path: AbsKey| #[trigger] t.external.contains_key(path) implies t.in_use(
            path,
        ) by {
            assert(s.external.contains_key(path));
            let user = choose|user: usize| #[trigger] s.uses(user, path);
            if user == id {
                assert(rest.in_use(path));
                let another = choose|another: usize| #[trigger] rest.uses(another, path);
                assert(t.uses(another, path));
            } else {
                assert(t.uses(user, path));
            }
        }
    }
}

/// Whether two reports are on one file.
pub open spec fn same_file(
    id: usize,
    dir: LocalPathModel,
    other_id: usize,
    other: LocalPathModel,
) -> bool {
    dir == other && (dir is OutsideWorktree || id == other_id)
}

/// The order of two reports on different files does not matter: neither for the store that they
/// leave, nor for whether they are refused.
pub proof fn law_reports_commute(
    s: StoreModel,
    id: usize,
    dir: LocalPathModel,
    content: Option<Seq<char>>,
    other_id: usize,
    other: LocalPathModel,
    other_content: Option<Seq<char>>,
)
    requires
        !same_file(id, dir, other_id, other),
    ensures
        s.reported(id, dir, content).reported(other_id, other, other_content) == s.reported(
            other_id,
            other,
            other_content,
        ).reported(id, dir, content),
        s.reported(id, dir, content).refused(other_id, other, other_content) == s.refused(
            other_id,
            other,
            other_content,
        ),
{
    let a = s.reported(id, dir, content);
    let b = s.reported(other_id, other, other_content);
    let x = a.reported(other_id, other, other_content);
    let y = b.reported(id, dir, content);
    law_report_keeps_other_files(s, id, dir, content, other_id, other);
    law_report_keeps_other_files(s, other_id, other, other_content, id, dir);
    assert(x.external =~= y.external);
    assert forall|w: usize| #[trigger] x.worktrees.contains_key(w) implies y.worktrees.contains_key(
        w,
    ) && x.worktrees[w] == y.worktrees[w] by {
        assert(x.worktrees[w].internal =~= y.worktrees[w].internal);
        match (x.worktrees[w].external_paths, y.worktrees[w].external_paths) {
            (Some(p), Some(q)) => {
                assert(p =~= q);
            },
            _ => {},
        }
        assert(x.worktrees[w] =~= y.worktrees[w]);
    }
    assert(x.worktrees =~= y.worktrees);
}

/// The order in which two worktrees are forgotten does not matter.
pub proof fn law_removals_commute(s: StoreModel, id: usize, other: usize)
    ensures
        s.without_worktree(id).without_worktree(other) == s.without_worktree(
            other,
        ).without_worktree(id),
{
    let x = s.without_worktree(id).without_worktree(other);
    let y = s.without_worktree(other).without_worktree(id);
    assert(x.worktrees =~= y.worktrees);
    assert forall|path: AbsKey| #[trigger] x.external.contains_key(path) == y.external.contains_key(
        path,
    ) by {
        lemma_removed_twice(s, id, other, path);
        lemma_removed_twice(s, other, id, path);
    }
    assert(x.external =~= y.external);
}

/// Once two worktrees are forgotten, a file outside of the worktrees is kept if and only if it
/// counts for another worktree, or counted for neither of the two.
proof fn lemma_removed_twice(s: StoreModel, id: usize, other: usize, path: AbsKey)
    ensures
        s.without_worktree(id).without_worktree(other).external.contains_key(path) <==> {
            &&& s.external.contains_key(path)
            &&& !s.uses(id, path) && !s.uses(other, path) || exists|w: usize|
                w != id && w != other && #[trigger] s.uses(w, path)
        },
{
    let first = StoreModel { worktrees: s.worktrees.remove(id), ..s };
    let t = s.without_worktree(id);
    let second = StoreModel { worktrees: t.worktrees.remove(other), ..t };
    assert forall|w: usize| #[trigger] first.uses(w, path) == (w != id && s.uses(w, path)) by {}
    assert forall|w: usize| #[trigger] second.uses(w, path) == (w != id && w != other && s.uses(
        w,
        path,
    )) by {}
    assert forall|w: usize| w != id && w != other && #[trigger] s.uses(w, path) implies first.in_use(
        path,
    ) && second.in_use(path) by {
        assert(first.uses(w, path) && second.uses(w, path));
    }
    if first.in_use(path) {
        let w = choose|w: usize| #[trigger] first.uses(w, path);
        assert(s.uses(w, path));
    }
    if second.in_use(path) {
        let w = choose|w: usize| #[trigger] second.uses(w, path);
        assert(s.uses(w, path));
    }
    assert(t.uses(other, path) == (other != id && s.uses(other, path)));
    if other != id && s.uses(other, path) {
        assert(first.uses(other, path));
    }
}

/// Something that is done to a store.
pub enum Step {
    /// A file is reported.
    Report(usize, LocalPathModel, Option<Seq<char>>),
    /// A worktree is forgotten.
    Forget(usize),
    /// The directories above a worktree are asked for.
    Ask(usize),
    /// The directories above a worktree become known.
    Load(usize, Seq<(AbsKey, Option<ConfigModel>)>),
    /// A watched file changes.
    Follow(AbsKey, ConfigModel),
}

impl StoreModel {
    pub open spec fn step(self, step: Step) -> StoreModel {
        match step {
            Step::Report(id, dir, content) => self.reported(id, dir, content),
            Step::Forget(id) => self.without_worktree(id),
            Step::Ask(id) => if self.wants_external(id) {
                self.asked(id)
            } else {
                self
            },
            Step::Load(id, chain) => self.with_chain(id, chain),
            Step::Follow(path, config) => self.with_watched(path, config),
        }
    }

    /// The store after some steps.
    pub open spec fn after(self, steps: Seq<Step>) -> StoreModel
        decreases steps.len(),
    {
        if steps.len() == 0 {
            self
        } else {
            self.after(steps.drop_last()).step(steps.last())
        }
    }
}

/// Once the directories above a worktree are known, they are not asked for again, whatever is done
/// later, unless the worktree is forgotten.
pub proof fn law_known_directories_are_not_asked_for_again(
    s: StoreModel,
    id: usize,
    chain: Seq<(AbsKey, Option<ConfigModel>)>,
    steps: Seq<Step>,
)
    requires
        !steps.contains(Step::Forget(id)),
    ensures
        !s.with_chain(id, chain).after(steps).wants_external(id),
{
    lemma_directories_stay_known(s.with_chain(id, chain), id, steps);
}

proof fn lemma_directories_stay_known(s: StoreModel, id: usize, steps: Seq<Step>)
    requires
        s.worktree(id).external_paths is Some,
        !steps.contains(Step::Forget(id)),
    ensures
        s.after(steps).worktree(id).external_paths is Some,
    decreases steps.len(),
{
    if steps.len() > 0 {
        let earlier = steps.drop_last();
        assert forall|i: int| 0 <= i < earlier.len() implies earlier[i] != Step::Forget(id) by {
            assert(earlier[i] == steps[i]);
            assert(steps.contains(steps[i]));
        }
        lemma_directories_stay_known(s, id, earlier);
        assert(steps.contains(steps.last()));
    }
}

} // verus!
