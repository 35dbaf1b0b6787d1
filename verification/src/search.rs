//! What holds of the search for configuration files above a worktree.
use vstd::prelude::*;

use crate::config::parsed;
use crate::effects::is_reading;
use crate::laws::{exact, lemma_external_members, lemma_same_lists, sound};
use crate::model::{
    chain, chained, is_root, newly_watched, AbsKey, ConfigModel, ExternalModel, RelKey, StoreModel,
    WalkModel,
};
use crate::paths::{editorconfig_in, parent_of, AbsPath};
use crate::sorted_map::in_order;

verus! {

/// A walk starts with all of its chain before it, and is over with all of it found.
pub proof fn law_walk_begins_and_ends(
    known: Map<AbsKey, bool>,
    worktree_path: AbsKey,
    walk: WalkModel,
    files: Map<AbsKey, Seq<char>>,
)
    requires
        walk.current is None,
    ensures
        WalkModel::start(known, worktree_path).outcome(files) == chain(
            known,
            parent_of(worktree_path),
            files,
        ),
        walk.outcome(files) == walk.found,
{
    let begun = WalkModel::start(known, worktree_path);
    assert(begun.outcome(files) =~= chain(known, parent_of(worktree_path), files));
    assert(walk.outcome(files) =~= walk.found);
}

/// To pass known directories changes nothing about what a walk will find, and brings it to a
/// directory that is not known, or to its end.
pub proof fn law_walk_passes_known(walk: WalkModel, files: Map<AbsKey, Seq<char>>)
    ensures
        walk.past_known().outcome(files) == walk.outcome(files),
        walk.past_known().known == walk.known,
        walk.past_known().current matches Some(dir) ==> !walk.known.contains_key(dir),
    decreases
            (match walk.current {
                None => 0,
                Some(dir) => dir.len() + 1,
            }),
{
    match walk.current {
        None => {},
        Some(dir) => {
            if walk.known.contains_key(dir) {
                let next = walk.with_found(None, walk.known[dir]);
                law_walk_passes_known(next, files);
                let outer = chain(walk.known, parent_of(dir), files);
                let link: (AbsKey, Option<ConfigModel>) = (dir, None);
                if walk.known[dir] {
                    assert(next.outcome(files) =~= walk.found.push(link));
                    assert(walk.outcome(files) =~= walk.found.push(link));
                } else {
                    assert(next.outcome(files) =~= walk.found.push(link) + outer);
                    assert(walk.outcome(files) =~= walk.found.push(link) + outer);
                }
            }
        },
    }
}

/// To say of a file what is the case changes nothing about what a walk will find.
pub proof fn law_walk_takes_answers(walk: WalkModel, files: Map<AbsKey, Seq<char>>)
    requires
        walk.current matches Some(dir) && !walk.known.contains_key(dir),
    ensures
        ({
            let file = editorconfig_in(walk.current->0);
            if files.contains_key(file) {
                let config = ConfigModel { content: files[file], parsed: parsed(files[file]) };
                walk.with_found(Some(config), is_root(config.parsed)).outcome(files)
                    == walk.outcome(files)
            } else {
                walk.with_nothing().outcome(files) == walk.outcome(files)
            }
        }),
{
    let dir = walk.current->0;
    let file = editorconfig_in(dir);
    if files.contains_key(file) {
        let config = ConfigModel { content: files[file], parsed: parsed(files[file]) };
        let next = walk.with_found(Some(config), is_root(config.parsed));
        assert(next.outcome(files) =~= walk.outcome(files));
    }
}

/// Every answer brings a walk nearer to its end.
pub proof fn law_walk_comes_to_an_end(walk: WalkModel, config: Option<ConfigModel>, root: bool)
    requires
        walk.current is Some,
    ensures
        walk.with_found(config, root).current matches Some(dir) ==> dir.len()
            < walk.current->0.len(),
        walk.with_nothing().current matches Some(dir) ==> dir.len() < walk.current->0.len(),
        walk.past_known().current matches Some(dir) ==> dir.len() <= walk.current->0.len(),
    decreases walk.current->0.len(),
{
    let dir = walk.current->0;
    if walk.known.contains_key(dir) {
        let next = walk.with_found(None, walk.known[dir]);
        if next.current is Some {
            law_walk_comes_to_an_end(next, config, root);
        }
    }
}

/// A walk run to its end, where every file is as `files` has it.
pub open spec fn walked(walk: WalkModel, files: Map<AbsKey, Seq<char>>) -> WalkModel
    decreases
            (match walk.current {
                None => 0,
                Some(dir) => dir.len() + 1,
            }),
{
    let here = walk.past_known();
    match here.current {
        None => here,
        Some(dir) => {
            let file = editorconfig_in(dir);
            let next = if files.contains_key(file) {
                here.with_found(
                    Some(ConfigModel { content: files[file], parsed: parsed(files[file]) }),
                    is_root(parsed(files[file])),
                )
            } else {
                here.with_nothing()
            };
            proof {
                law_walk_comes_to_an_end(walk, None, false);
            }
            walked(next, files)
        },
    }
}

/// A walk that is run to its end finds its chain.
pub proof fn law_walk_finds_chain(walk: WalkModel, files: Map<AbsKey, Seq<char>>)
    ensures
        walked(walk, files).current is None,
        walked(walk, files).found == walk.outcome(files),
    decreases
            (match walk.current {
                None => 0,
                Some(dir) => dir.len() + 1,
            }),
{
    let here = walk.past_known();
    law_walk_passes_known(walk, files);
    match here.current {
        None => {
            assert(here.outcome(files) =~= here.found);
        },
        Some(dir) => {
            law_walk_comes_to_an_end(walk, None, false);
            law_walk_takes_answers(here, files);
            let file = editorconfig_in(dir);
            if files.contains_key(file) {
                let config = ConfigModel { content: files[file], parsed: parsed(files[file]) };
                law_walk_finds_chain(
                    here.with_found(Some(config), is_root(config.parsed)),
                    files,
                );
            } else {
                law_walk_finds_chain(here.with_nothing(), files);
            }
        },
    }
}

/// The directories of a chain lie above the worktree, from the nearest outwards.
pub proof fn law_chain_goes_outwards(
    known: Map<AbsKey, bool>,
    start: AbsKey,
    files: Map<AbsKey, Seq<char>>,
)
    ensures
        ({
            let links = chain(known, parent_of(start), files);
            &&& forall|i: int|
                0 <= i < links.len() ==> (#[trigger] links[i]).0.is_prefix_of(start)
                    && links[i].0.len() < start.len()
            &&& forall|i: int, j: int|
                0 <= i < j < links.len() ==> (#[trigger] links[j]).0.len() < (
                #[trigger] links[i]).0.len()
        }),
    decreases start.len(),
{
    match parent_of(start) {
        None => {},
        Some(dir) => {
            law_chain_goes_outwards(known, dir, files);
            let links = chain(known, Some(dir), files);
            let outer = chain(known, parent_of(dir), files);
            assert(dir =~= start.subrange(0, dir.len() as int));
            assert forall|i: int| 0 <= i < links.len() implies (
            #[trigger] links[i]).0.is_prefix_of(start) && links[i].0.len() < start.len() by {
                if links[i].0 != dir {
                    let o = if links.len() == outer.len() { i } else { i - 1 };
                    assert(links[i] == outer[o]);
                    let inner = outer[o].0;
                    assert(inner =~= start.subrange(0, inner.len() as int)) by {
                        assert forall|m: int| 0 <= m < inner.len() implies inner[m]
                            == start.subrange(0, inner.len() as int)[m] by {
                            assert(dir.subrange(0, inner.len() as int)[m] == dir[m]);
                        }
                    }
                }
            }
            assert forall|i: int, j: int| 0 <= i < j < links.len() implies (
            #[trigger] links[j]).0.len() < (#[trigger] links[i]).0.len() by {
                let shift = if links.len() == outer.len() { 0int } else { 1int };
                assert(links[j] == outer[j - shift]);
                if i - shift >= 0 {
                    assert(links[i] == outer[i - shift]);
                }
            }
        },
    }
}

/// Whether the file of a link is a root file.
pub open spec fn link_is_root(
    known: Map<AbsKey, bool>,
    link: (AbsKey, Option<ConfigModel>),
) -> bool {
    match link.1 {
        Some(config) => is_root(config.parsed),
        None => known[link.0],
    }
}

/// Whether a directory has a file, known or not.
pub open spec fn has_file(
    known: Map<AbsKey, bool>,
    files: Map<AbsKey, Seq<char>>,
    dir: AbsKey,
) -> bool {
    known.contains_key(dir) || files.contains_key(editorconfig_in(dir))
}

/// A chain ends with the first root file, and each file in it that was not known before says what
/// its text says.
pub proof fn law_chain_stops_at_root(
    known: Map<AbsKey, bool>,
    dir: Option<AbsKey>,
    files: Map<AbsKey, Seq<char>>,
    i: int,
)
    requires
        0 <= i < chain(known, dir, files).len(),
    ensures
        ({
            let links = chain(known, dir, files);
            &&& link_is_root(known, links[i]) ==> i == links.len() - 1
            &&& has_file(known, files, links[i].0)
            &&& match links[i].1 {
                None => known.contains_key(links[i].0),
                Some(config) => {
                    &&& !known.contains_key(links[i].0)
                    &&& config.content == files[editorconfig_in(links[i].0)]
                    &&& exact(config)
                },
            }
        }),
    decreases
            (match dir {
                None => 0,
                Some(dir) => dir.len() + 1,
            }),
{
    let links = chain(known, dir, files);
    let d = dir->0;
    let outer = chain(known, parent_of(d), files);
    if !has_file(known, files, d) {
        assert(links =~= outer);
        law_chain_stops_at_root(known, parent_of(d), files, i);
    } else if i > 0 {
        assert(links[i] == outer[i - 1]);
        law_chain_stops_at_root(known, parent_of(d), files, i - 1);
    }
}

/// Whether a directory is `start` or lies above it.
pub open spec fn at_or_above(start: Option<AbsKey>, dir: AbsKey) -> bool
    decreases
            (match start {
                None => 0,
                Some(start) => start.len() + 1,
            }),
{
    match start {
        None => false,
        Some(start) => start == dir || at_or_above(parent_of(start), dir),
    }
}

/// A directory with a file is missing from a chain only where a root file further inwards ends it.
pub proof fn law_chain_misses_nothing(
    known: Map<AbsKey, bool>,
    start: Option<AbsKey>,
    files: Map<AbsKey, Seq<char>>,
    dir: AbsKey,
)
    requires
        at_or_above(start, dir),
        has_file(known, files, dir),
    ensures
        ({
            let links = chain(known, start, files);
            ||| exists|i: int| 0 <= i < links.len() && (#[trigger] links[i]).0 == dir
            ||| links.len() > 0 && link_is_root(known, links.last()) && links.last().0.len()
                > dir.len()
        }),
    decreases
            (match start {
                None => 0,
                Some(start) => start.len() + 1,
            }),
{
    let links = chain(known, start, files);
    let d = start->0;
    let outer = chain(known, parent_of(d), files);
    if d == dir {
        assert(links[0].0 == dir);
    } else {
        law_chain_misses_nothing(known, parent_of(d), files, dir);
        lemma_above_is_shorter(parent_of(d), dir);
        if !has_file(known, files, d) {
            assert(links =~= outer);
        } else if links.len() > 1 || outer.len() == 0 {
            if exists|i: int| 0 <= i < outer.len() && (#[trigger] outer[i]).0 == dir {
                let i = choose|i: int| 0 <= i < outer.len() && (#[trigger] outer[i]).0 == dir;
                assert(links[i + 1] == outer[i]);
            } else {
                assert(links.last() == outer.last());
            }
        } else {
            assert(link_is_root(known, links[0]));
        }
    }
}

proof fn lemma_above_is_shorter(start: Option<AbsKey>, dir: AbsKey)
    requires
        at_or_above(start, dir),
    ensures
        dir.len() <= start->0.len(),
    decreases
            (match start {
                None => 0,
                Some(start) => start.len() + 1,
            }),
{
    let d = start->0;
    if d != dir {
        lemma_above_is_shorter(parent_of(d), dir);
    }
}

/// The known files after a chain was added.
proof fn lemma_chained(
    external: Map<AbsKey, ExternalModel>,
    links: Seq<(AbsKey, Option<ConfigModel>)>,
    path: AbsKey,
)
    ensures
        external.contains_key(path) ==> chained(external, links).contains_key(path) && chained(
            external,
            links,
        )[path] == external[path],
        chained(external, links).contains_key(path) <==> external.contains_key(path) || exists|
            i: int,
        |
            0 <= i < links.len() && (#[trigger] links[i]).0 == path,
        chained(external, links).contains_key(path) && !external.contains_key(path) ==> {
            &&& chained(external, links)[path].watched
            &&& (forall|i: int|
                0 <= i < links.len() && (#[trigger] links[i]).1 is Some ==> sound(links[i].1->0))
                ==> sound(chained(external, links)[path].config)
        },
    decreases links.len(),
{
    if links.len() > 0 {
        let rest = links.drop_last();
        lemma_chained(external, rest, path);
        assert(forall|i: int| 0 <= i < rest.len() ==> rest[i] == links[i]);
        if exists|i: int| 0 <= i < rest.len() && (#[trigger] rest[i]).0 == path {
            let i = choose|i: int| 0 <= i < rest.len() && (#[trigger] rest[i]).0 == path;
            assert(links[i].0 == path);
        }
        if exists|i: int| 0 <= i < links.len() && (#[trigger] links[i]).0 == path {
            let i = choose|i: int| 0 <= i < links.len() && (#[trigger] links[i]).0 == path;
            if i < rest.len() {
                assert(rest[i].0 == path);
            }
        }
        assert(links[links.len() - 1] == links.last());
    }
}

/// Once a chain was added, each of its directories is known and counts for the worktree, and no
/// other does; what was known before is as it was; and the directories above the worktree are no
/// longer to be asked for.
pub proof fn law_chain_counts(
    s: StoreModel,
    id: usize,
    links: Seq<(AbsKey, Option<ConfigModel>)>,
    path: AbsKey,
)
    ensures
        ({
            let t = s.with_chain(id, links);
            let linked = exists|i: int| 0 <= i < links.len() && (#[trigger] links[i]).0 == path;
            &&& t.uses(id, path) <==> linked
            &&& linked ==> t.external.contains_key(path)
            &&& s.external.contains_key(path) ==> t.external.contains_key(path)
                && t.external[path] == s.external[path]
            &&& t.external.contains_key(path) && !s.external.contains_key(path) ==> linked
                && t.external[path].watched
            &&& t.worktree(id).internal == s.worktree(id).internal
            &&& !t.wants_external(id)
        }),
{
    let t = s.with_chain(id, links);
    lemma_chained(s.external, links, path);
    let dirs = links.map_values(|link: (AbsKey, Option<ConfigModel>)| link.0);
    if exists|i: int| 0 <= i < links.len() && (#[trigger] links[i]).0 == path {
        let i = choose|i: int| 0 <= i < links.len() && (#[trigger] links[i]).0 == path;
        assert(dirs[i] == path);
        assert(dirs.to_set().contains(path));
    }
    if dirs.to_set().contains(path) {
        let i = choose|i: int| 0 <= i < dirs.len() && dirs[i] == path;
        assert(links[i].0 == path);
    }
}

/// Once a chain was added, the files outside of the worktree that are listed for it are those of
/// the chain.
pub proof fn law_chain_is_listed(
    s: StoreModel,
    id: usize,
    links: Seq<(AbsKey, Option<ConfigModel>)>,
    path: AbsKey,
)
    requires
        s.finite(),
    ensures
        (exists|i: int|
            0 <= i < s.with_chain(id, links).external_list(id).len() && (
            #[trigger] s.with_chain(id, links).external_list(id)[i]).0 == path) <==> (exists|
            i: int,
        |
            0 <= i < links.len() && (#[trigger] links[i]).0 == path),
{
    let t = s.with_chain(id, links);
    law_loading_keeps_invariants(s, id, links);
    law_chain_counts(s, id, links, path);
    lemma_external_members(t, id);
    let members = Set::new(|path: AbsKey| t.uses(id, path) && t.external.contains_key(path));
    let keys = in_order::<AbsPath>(members);
    assert(keys.contains(path) <==> members.contains(path));
    let list = t.external_list(id);
    if exists|i: int| 0 <= i < list.len() && (#[trigger] list[i]).0 == path {
        let i = choose|i: int| 0 <= i < list.len() && (#[trigger] list[i]).0 == path;
        assert(keys[i] == path);
    }
    if keys.contains(path) {
        let i = choose|i: int| 0 <= i < keys.len() && keys[i] == path;
        assert(list[i].0 == path);
    }
}

/// What is told to be watched is what a chain adds, each file once.
pub proof fn law_added_files_are_watched(
    s: StoreModel,
    links: Seq<(AbsKey, Option<ConfigModel>)>,
    path: AbsKey,
)
    ensures
        newly_watched(s.external, links).no_duplicates(),
        newly_watched(s.external, links).contains(path) <==> chained(
            s.external,
            links,
        ).contains_key(path) && !s.external.contains_key(path),
    decreases links.len(),
{
    let watched = newly_watched(s.external, links);
    if links.len() > 0 {
        let rest = links.drop_last();
        let earlier = newly_watched(s.external, rest);
        let dir = links.last().0;
        law_added_files_are_watched(s, rest, path);
        law_added_files_are_watched(s, rest, dir);
        lemma_chained(s.external, rest, dir);
        if !chained(s.external, rest).contains_key(dir) {
            assert(watched == earlier.push(dir));
            assert(!earlier.contains(dir));
            if earlier.contains(path) {
                let i = choose|i: int| 0 <= i < earlier.len() && earlier[i] == path;
                assert(watched[i] == path);
            }
            if path == dir {
                assert(watched[earlier.len() as int] == path);
            }
            if watched.contains(path) && path != dir {
                let i = choose|i: int| 0 <= i < watched.len() && watched[i] == path;
                assert(earlier[i] == path);
            }
            assert forall|i: int, j: int|
                0 <= i < watched.len() && 0 <= j < watched.len() && i != j implies watched[i]
                != watched[j] by {
                if i == earlier.len() {
                    assert(earlier.contains(earlier[j]));
                } else if j == earlier.len() {
                    assert(earlier.contains(earlier[i]));
                }
            }
        }
    }
}

/// Adding a chain leaves finitely many files known, each saying what its text says. It leaves
/// each file outside of the worktrees counting for some worktree where none counted for this
/// worktree before that is not in the chain.
pub proof fn law_loading_keeps_invariants(
    s: StoreModel,
    id: usize,
    links: Seq<(AbsKey, Option<ConfigModel>)>,
)
    ensures
        s.finite() ==> s.with_chain(id, links).finite(),
        s.sound() && (forall|i: int|
            0 <= i < links.len() && (#[trigger] links[i]).1 is Some ==> sound(links[i].1->0))
            ==> s.with_chain(id, links).sound(),
        s.tidy() && (forall|path: AbsKey| #[trigger]
            s.uses(id, path) ==> exists|i: int|
                0 <= i < links.len() && (#[trigger] links[i]).0 == path) ==> s.with_chain(
            id,
            links,
        ).tidy(),
{
    let t = s.with_chain(id, links);
    let dirs = links.map_values(|link: (AbsKey, Option<ConfigModel>)| link.0);
    if s.finite() {
        vstd::seq_lib::seq_to_set_is_finite(dirs);
        assert(t.external.dom().subset_of(s.external.dom().union(dirs.to_set()))) by {
            assert forall|path: AbsKey| t.external.dom().contains(path) implies s.external.dom(
            ).union(dirs.to_set()).contains(path) by {
                law_chain_counts(s, id, links, path);
            }
        }
        vstd::set_lib::lemma_set_subset_finite(
            s.external.dom().union(dirs.to_set()),
            t.external.dom(),
        );
        assert forall|other: usize| t.worktrees.contains_key(other) implies {
            &&& (#[trigger] t.worktrees[other]).internal.dom().finite()
            &&& t.worktrees[other].external_paths matches Some(paths) ==> paths.finite()
        } by {
            if other == id {
                assert(s.worktree(id).internal.dom().finite());
            } else {
                assert(t.worktrees[other] == s.worktrees[other]);
            }
        }
    }
    if s.sound() && (forall|i: int|
        0 <= i < links.len() && (#[trigger] links[i]).1 is Some ==> sound(links[i].1->0)) {
        assert forall|path: AbsKey| #[trigger] t.external.contains_key(path) implies sound(
            t.external[path].config,
        ) by {
            lemma_chained(s.external, links, path);
        }
        assert forall|other: usize, path: RelKey|
            t.worktrees.contains_key(other) && #[trigger] t.worktrees[other].internal.contains_key(
                path,
            ) implies exact(t.worktrees[other].internal[path]) by {
            assert(t.worktrees[other].internal == s.worktree(other).internal);
            assert(s.worktrees[other].internal.contains_key(path));
        }
    }
    if s.tidy() && (forall|path: AbsKey| #[trigger]
        s.uses(id, path) ==> exists|i: int|
            0 <= i < links.len() && (#[trigger] links[i]).0 == path) {
        assert forall|path: AbsKey| #[trigger] t.external.contains_key(path) implies t.in_use(
            path,
        ) by {
            law_chain_counts(s, id, links, path);
            if s.external.contains_key(path) {
                let user = choose|user: usize| #[trigger] s.uses(user, path);
                assert(s.uses(user, path));
                if user != id {
                    assert(t.uses(user, path));
                } else {
                    assert(t.uses(id, path));
                }
            } else {
                assert(t.uses(id, path));
            }
        }
    }
}

/// To ask for the directories above a worktree changes neither which files there are nor for
/// which worktrees they count, and it can be done again until they are known.
pub proof fn law_asking_keeps_files(s: StoreModel, id: usize, other: usize)
    requires
        s.wants_external(id),
    ensures
        s.asked(id).external == s.external,
        s.asked(id).worktree(other).internal == s.worktree(other).internal,
        s.asked(id).worktree(other).external_paths == s.worktree(other).external_paths,
        s.asked(id).worktrees.dom() == s.worktrees.dom(),
        s.asked(id).wants_external(id),
{
    assert(s.asked(id).worktrees.dom() =~= s.worktrees.dom());
}

/// To follow a change of a watched file changes neither which files there are nor for which
/// worktrees they count. It leaves finitely many files known, each saying what its text says, and
/// each file outside of the worktrees counting for some worktree.
pub proof fn law_watching_keeps_files(
    s: StoreModel,
    dir: AbsKey,
    config: ConfigModel,
    path: AbsKey,
)
    ensures
        s.with_watched(dir, config).worktrees == s.worktrees,
        s.with_watched(dir, config).external.dom() == s.external.dom(),
        path != dir && s.external.contains_key(path) ==> s.with_watched(
            dir,
            config,
        ).external[path] == s.external[path],
        s.external.contains_key(dir) ==> s.with_watched(dir, config).external[dir].config
            == config,
        s.finite() ==> s.with_watched(dir, config).finite(),
        s.sound() && sound(config) ==> s.with_watched(dir, config).sound(),
        s.tidy() ==> s.with_watched(dir, config).tidy(),
{
    assert(s.with_watched(dir, config).external.dom() =~= s.external.dom());
    let t = s.with_watched(dir, config);
    if s.sound() && sound(config) {
        assert forall|p: AbsKey| #[trigger] t.external.contains_key(p) implies sound(
            t.external[p].config,
        ) by {
            assert(s.external.contains_key(p));
        }
        assert forall|w: usize, p: RelKey|
            t.worktrees.contains_key(w) && #[trigger] t.worktrees[w].internal.contains_key(
                p,
            ) implies exact(t.worktrees[w].internal[p]) by {
            assert(s.worktrees[w].internal.contains_key(p));
        }
    }
    if s.tidy() {
        assert forall|p: AbsKey| #[trigger] t.external.contains_key(p) implies t.in_use(p) by {
            assert(s.external.contains_key(p));
            let user = choose|user: usize| #[trigger] s.uses(user, p);
            assert(t.uses(user, p));
        }
    }
}

/// To follow a change of a watched file leaves the list of files and the sections that govern a
/// path as they were for every worktree that the file does not count for.
pub proof fn law_watching_is_local(
    s: StoreModel,
    dir: AbsKey,
    config: ConfigModel,
    other: usize,
    other_path: RelKey,
)
    requires
        s.finite(),
        !s.uses(other, dir),
    ensures
        s.with_watched(dir, config).list(other) == s.list(other),
        s.with_watched(dir, config).governing(other, other_path) == s.governing(other, other_path),
{
    let t = s.with_watched(dir, config);
    assert forall|p: AbsKey| #[trigger] s.uses(other, p) == t.uses(other, p) by {}
    lemma_same_lists(s, t, other);
}

/// To add a chain for a worktree leaves the list of files and the sections that govern a path as
/// they were for every other worktree that counts none of the files that were not known before.
pub proof fn law_loading_is_local(
    s: StoreModel,
    id: usize,
    links: Seq<(AbsKey, Option<ConfigModel>)>,
    other: usize,
    other_path: RelKey,
)
    requires
        s.finite(),
        other != id,
        forall|i: int|
            0 <= i < links.len() ==> s.external.contains_key((#[trigger] links[i]).0) || !s.uses(
                other,
                links[i].0,
            ),
    ensures
        s.with_chain(id, links).list(other) == s.list(other),
        s.with_chain(id, links).governing(other, other_path) == s.governing(other, other_path),
{
    let t = s.with_chain(id, links);
    assert forall|p: AbsKey| #[trigger] s.uses(other, p) == t.uses(other, p) by {}
    assert forall|p: AbsKey| s.uses(other, p) || t.uses(other, p) implies #[trigger]
        t.external.contains_key(p) == s.external.contains_key(p) && (s.external.contains_key(p)
        ==> t.external[p].config == s.external[p].config) by {
        assert(s.uses(other, p) == t.uses(other, p));
        lemma_chained(s.external, links, p);
    }
    lemma_same_lists(s, t, other);
}

/// A search that the store starts above a worktree, run to its end.
pub open spec fn searched(
    s: StoreModel,
    worktree_path: AbsKey,
    files: Map<AbsKey, Seq<char>>,
) -> Seq<(AbsKey, Option<ConfigModel>)> {
    walked(WalkModel::start(s.known_roots(), worktree_path), files).found
}

/// Whether the file of a link is a root file: one that the store holds, if it could be read and
/// says so, watched or not; one that was loaded, if its text says so.
pub open spec fn ends_search(s: StoreModel, link: (AbsKey, Option<ConfigModel>)) -> bool {
    let parsed = match link.1 {
        Some(config) => config.parsed,
        None => s.external[link.0].config.parsed,
    };
    parsed is Some && parsed->0.is_root
}

/// A search finds directories above the worktree, from the nearest outwards. It brings the file
/// of each that the store does not hold, with the text that the file has and what the text says,
/// and none for those that the store holds. It goes no further than the first root file.
pub proof fn law_search_finds(
    s: StoreModel,
    worktree_path: AbsKey,
    files: Map<AbsKey, Seq<char>>,
    i: int,
    j: int,
)
    requires
        0 <= i < searched(s, worktree_path, files).len(),
        0 <= j < searched(s, worktree_path, files).len(),
    ensures
        ({
            let links = searched(s, worktree_path, files);
            let (dir, config) = links[i];
            &&& dir.is_prefix_of(worktree_path)
            &&& dir.len() < worktree_path.len()
            &&& i < j ==> links[j].0.len() < dir.len()
            &&& config is None <==> s.external.contains_key(dir)
            &&& config matches Some(config) ==> {
                &&& files.contains_key(editorconfig_in(dir))
                &&& config.content == files[editorconfig_in(dir)]
                &&& is_reading(config.parsed, config.content)
            }
            &&& ends_search(s, links[i]) ==> i == links.len() - 1
        }),
{
    let known = s.known_roots();
    let walk = WalkModel::start(known, worktree_path);
    law_walk_finds_chain(walk, files);
    assert(walk.outcome(files) =~= chain(known, parent_of(worktree_path), files));
    law_chain_goes_outwards(known, worktree_path, files);
    law_chain_stops_at_root(known, parent_of(worktree_path), files, i);
    let links = searched(s, worktree_path, files);
    if links[i].1 is None {
        crate::effects::law_known_roots(s, links[i].0);
        assert(known.contains_key(links[i].0));
    }
}

/// A search misses no directory that has a file, held by the store or not, unless a root file in a
/// directory further inwards ended it. So where no file is a root file it reaches the top.
pub proof fn law_search_misses_nothing(
    s: StoreModel,
    worktree_path: AbsKey,
    files: Map<AbsKey, Seq<char>>,
    dir: AbsKey,
)
    requires
        at_or_above(parent_of(worktree_path), dir),
        s.external.contains_key(dir) || files.contains_key(editorconfig_in(dir)),
    ensures
        ({
            let links = searched(s, worktree_path, files);
            ||| exists|i: int| 0 <= i < links.len() && (#[trigger] links[i]).0 == dir
            ||| links.len() > 0 && ends_search(s, links.last()) && links.last().0.len()
                > dir.len()
        }),
{
    let known = s.known_roots();
    let walk = WalkModel::start(known, worktree_path);
    law_walk_finds_chain(walk, files);
    assert(walk.outcome(files) =~= chain(known, parent_of(worktree_path), files));
    law_chain_misses_nothing(known, parent_of(worktree_path), files, dir);
    let links = searched(s, worktree_path, files);
    if links.len() > 0 {
        let last = links.len() - 1;
        law_chain_stops_at_root(known, parent_of(worktree_path), files, last);
        if links.last().1 is None {
            crate::effects::law_known_roots(s, links.last().0);
        }
    }
}

/// Where a search that the store starts was run to its end and its chain added, each directory
/// with a file above the worktree, up to the first root file, counts for the worktree and holds
/// what it held before, or else the file that it has, with what the text of that says.
pub proof fn law_loaded_files(
    s: StoreModel,
    id: usize,
    worktree_path: AbsKey,
    files: Map<AbsKey, Seq<char>>,
    i: int,
)
    requires
        0 <= i < searched(s, worktree_path, files).len(),
    ensures
        ({
            let links = searched(s, worktree_path, files);
            let t = s.with_chain(id, links);
            let dir = links[i].0;
            &&& crate::effects::is_counted(t, id, dir)
            &&& t.external.contains_key(dir)
            &&& if s.external.contains_key(dir) {
                t.external[dir] == s.external[dir]
            } else {
                &&& t.external[dir].watched
                &&& t.external[dir].config.content == files[editorconfig_in(dir)]
                &&& is_reading(t.external[dir].config.parsed, files[editorconfig_in(dir)])
            }
        }),
{
    let links = searched(s, worktree_path, files);
    let dir = links[i].0;
    law_search_finds(s, worktree_path, files, i, i);
    assert forall|j: int| 0 <= j < i implies (#[trigger] links[j]).0 != dir by {
        law_search_finds(s, worktree_path, files, j, i);
    }
    crate::effects::law_chain_is_kept(s, id, links, dir, i);
    law_chain_counts(s, id, links, dir);
}

} // verus!
