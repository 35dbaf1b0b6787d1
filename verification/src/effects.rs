//! What each operation leaves in the store, file by file and worktree by worktree.
use vstd::prelude::*;

use crate::config::{parse_message, parsed, Editorconfig, EditorconfigModel};
use crate::model::{
    chained, file_in, is_root, newly_watched, told, AbsKey, ConfigModel, EventModel, RelKey,
    StoreModel,
};
use crate::outside::{body_sections, held_sections, preamble_root};
use crate::laws::lemma_external_members;
use crate::order::before;
use crate::paths::{AbsPath, LocalPathModel, RelPath, EDITORCONFIG_NAME};
use crate::sorted_map::{in_order, lemma_in_order_members, OrderedKey};
use vstd::utf8::encode_utf8;

verus! {

/// Whether something is what a text says: the parser accepts the lines before the first section
/// and all lines after it, the file is a root file if the former say so, and its sections are the
/// latter. Of a text with a line that the parser refuses there is nothing to say.
pub open spec fn is_reading(reading: Option<EditorconfigModel>, text: Seq<char>) -> bool {
    match reading {
        Some(c) => {
            &&& preamble_root(text) == Some(c.is_root)
            &&& !body_sections(text).1
            &&& c.sections == body_sections(text).0
        },
        None => preamble_root(text) is None || body_sections(text).1,
    }
}

/// A text that can be read is a root file if and only if its preamble says so, however many
/// sections follow, and has all of its sections. One cannot be read if and only if a line of it is
/// refused, and the message tells whether that line stands before the first section.
pub proof fn law_reading(text: Seq<char>)
    ensures
        is_reading(parsed(text), text),
        preamble_root(text) is None ==> parse_message(text) == "creating editorconfig parser"@,
        preamble_root(text) is Some ==> parse_message(text) == "parsing editorconfig sections"@,
{
}

/// Texts with the same preamble and the same body say the same, and what is said of a text
/// depends on nothing but these two.
pub proof fn law_readings_agree(text: Seq<char>, other: Seq<char>)
    requires
        parsed(text) is Some,
        parsed(other) is Some,
    ensures
        parsed(text) == parsed(other) <==> preamble_root(text) == preamble_root(other)
            && body_sections(text).0 == body_sections(other).0,
{
}

/// A file that was read is a root file if and only if it says so itself.
pub proof fn law_root_files(reading: Option<EditorconfigModel>, editorconfig: Editorconfig)
    ensures
        is_root(reading) <==> reading is Some && reading->0.is_root,
        editorconfig@.is_root == editorconfig.is_root,
        editorconfig@.sections == held_sections(editorconfig.sections),
{
}

/// Whether the store holds a file with the given text under a directory.
pub open spec fn has_text(s: StoreModel, id: usize, dir: LocalPathModel, text: Seq<char>) -> bool {
    match dir {
        LocalPathModel::InWorktree(path) => {
            &&& s.worktrees.contains_key(id)
            &&& s.worktrees[id].internal.contains_key(path)
            &&& s.worktrees[id].internal[path].content == text
        },
        LocalPathModel::OutsideWorktree(path) => {
            &&& s.external.contains_key(path)
            &&& s.external[path].config.content == text
        },
    }
}

/// A report is refused if and only if its text has a line that the parser refuses, and is not the
/// text held under the directory. So a text that cannot be read is refused where no file was held,
/// and where a file with any other text was.
pub proof fn law_refusal(s: StoreModel, id: usize, dir: LocalPathModel, text: Seq<char>)
    ensures
        s.refused(id, dir, Some(text)) <==> {
            &&& preamble_root(text) is None || body_sections(text).1
            &&& !has_text(s, id, dir, text)
        },
        !s.refused(id, dir, None),
{
}

/// After any report on a file, a report with another text is refused if and only if the text
/// cannot be read; one with the same text is not refused.
pub proof fn law_refusal_after_report(
    s: StoreModel,
    id: usize,
    dir: LocalPathModel,
    before: Option<Seq<char>>,
    text: Seq<char>,
)
    ensures
        s.reported(id, dir, before).refused(id, dir, Some(text)) <==> {
            &&& preamble_root(text) is None || body_sections(text).1
            &&& before != Some(text)
        },
{
    law_refusal(s.reported(id, dir, before), id, dir, text);
}

/// A refusal names the EditorConfig file in the directory that was reported.
pub proof fn law_refused_file(path: RelKey, outside: AbsKey)
    ensures
        file_in(LocalPathModel::InWorktree(path)) == LocalPathModel::InWorktree(
            path.push(EDITORCONFIG_NAME@),
        ),
        file_in(LocalPathModel::OutsideWorktree(outside)) is OutsideWorktree,
        ({
            let file = file_in(LocalPathModel::OutsideWorktree(outside))->OutsideWorktree_0;
            &&& outside.is_prefix_of(file)
            &&& file.len() > outside.len()
            &&& file.last() == crate::paths::ComponentModel::Normal(
                encode_utf8(EDITORCONFIG_NAME@),
            )
        }),
{
    let file = file_in(LocalPathModel::OutsideWorktree(outside))->OutsideWorktree_0;
    assert(outside =~= file.subrange(0, outside.len() as int));
}

/// A report on a file outside of the worktrees adds one event, which names the worktree and the
/// directory; a report on a file in a worktree adds none.
pub proof fn law_events(events: Seq<EventModel>, id: usize, path: RelKey, outside: AbsKey)
    ensures
        told(events, id, LocalPathModel::InWorktree(path)) == events,
        ({
            let now = told(events, id, LocalPathModel::OutsideWorktree(outside));
            &&& now.len() == events.len() + 1
            &&& now.drop_last() == events
            &&& now.last() == EventModel::ExternalConfigChanged {
                worktree_id: id,
                abs_path: outside,
            }
        }),
{
    let now = told(events, id, LocalPathModel::OutsideWorktree(outside));
    assert(now.drop_last() =~= events);
}

/// A report on a file in a worktree changes that file, and nothing else: the other files of the
/// worktree, the directories that count for it, the other worktrees and the files outside of the
/// worktrees stay as they were. A file with a new text says what the text says; one whose text is
/// held already says what it said before. A worktree that was not known is known afterwards if
/// the file is there.
pub proof fn law_report_in_worktree(
    s: StoreModel,
    id: usize,
    path: RelKey,
    content: Option<Seq<char>>,
    other: usize,
    other_path: RelKey,
)
    requires
        other != id,
        other_path != path,
    ensures
        ({
            let dir = LocalPathModel::InWorktree(path);
            let t = s.reported(id, dir, content);
            let was = s.worktrees[id];
            let now = t.worktrees[id];
            &&& t.external == s.external
            &&& t.worktrees.contains_key(other) <==> s.worktrees.contains_key(other)
            &&& s.worktrees.contains_key(other) ==> t.worktrees[other] == s.worktrees[other]
            &&& t.worktrees.contains_key(id) <==> s.worktrees.contains_key(id) || content is Some
            &&& s.worktrees.contains_key(id) ==> {
                &&& now.external_paths == was.external_paths
                &&& now.loading == was.loading
                &&& now.internal.contains_key(other_path) <==> was.internal.contains_key(other_path)
                &&& was.internal.contains_key(other_path) ==> now.internal[other_path]
                    == was.internal[other_path]
            }
            &&& !s.worktrees.contains_key(id) && content is Some ==> {
                &&& now.external_paths is None
                &&& !now.loading
                &&& !now.internal.contains_key(other_path)
            }
            &&& t.worktrees.contains_key(id) ==> (now.internal.contains_key(path) <==> content
                is Some)
            &&& content matches Some(text) ==> {
                &&& now.internal[path].content == text
                &&& if has_text(s, id, dir, text) {
                    now.internal[path] == was.internal[path]
                } else {
                    is_reading(now.internal[path].parsed, text)
                }
            }
        }),
{
}

/// A report on a file outside of the worktrees changes that file, and which directories count for
/// the worktree that is named: the directory counts once a new text was reported, and no longer
/// once the file is gone. A new text ends the watch. A text that is held already changes nothing.
/// The other files, and all else that is known of any worktree, stay as they were.
pub proof fn law_report_outside(
    s: StoreModel,
    id: usize,
    path: AbsKey,
    content: Option<Seq<char>>,
    other: usize,
    other_path: AbsKey,
)
    requires
        other != id,
        other_path != path,
    ensures
        ({
            let dir = LocalPathModel::OutsideWorktree(path);
            let t = s.reported(id, dir, content);
            let was = s.worktrees[id];
            let now = t.worktrees[id];
            &&& t.external.contains_key(other_path) <==> s.external.contains_key(other_path)
            &&& s.external.contains_key(other_path) ==> t.external[other_path]
                == s.external[other_path]
            &&& t.worktrees.contains_key(other) <==> s.worktrees.contains_key(other)
            &&& s.worktrees.contains_key(other) ==> t.worktrees[other] == s.worktrees[other]
            &&& t.external.contains_key(path) <==> content is Some
            &&& s.worktrees.contains_key(id) ==> t.worktrees.contains_key(id) && now.internal
                == was.internal && now.loading == was.loading
            &&& match content {
                None => {
                    &&& t.worktrees.contains_key(id) <==> s.worktrees.contains_key(id)
                    &&& s.worktrees.contains_key(id) ==> {
                        &&& now.external_paths is Some <==> was.external_paths is Some
                        &&& was.external_paths is Some ==> !now.external_paths->0.contains(path)
                            && (now.external_paths->0.contains(other_path)
                            <==> was.external_paths->0.contains(other_path))
                    }
                },
                Some(text) => if has_text(s, id, dir, text) {
                    t == s
                } else {
                    &&& t.external[path].config.content == text
                    &&& is_reading(t.external[path].config.parsed, text)
                    &&& !t.external[path].watched
                    &&& t.worktrees.contains_key(id)
                    &&& now.external_paths is Some
                    &&& now.external_paths->0.contains(path)
                    &&& now.external_paths->0.contains(other_path) <==> s.worktrees.contains_key(id)
                        && was.external_paths is Some && was.external_paths->0.contains(other_path)
                    &&& !s.worktrees.contains_key(id) ==> now.internal.dom()
                        == Set::<RelKey>::empty() && !now.loading
                },
            }
        }),
{
    let t = s.reported(id, LocalPathModel::OutsideWorktree(path), content);
    if !s.worktrees.contains_key(id) && t.worktrees.contains_key(id) {
        assert(t.worktrees[id].internal.dom() =~= Set::<RelKey>::empty());
    }
}

/// Whether a directory is among those that count for a worktree.
pub open spec fn is_counted(s: StoreModel, id: usize, path: AbsKey) -> bool {
    &&& s.worktrees.contains_key(id)
    &&& s.worktrees[id].external_paths is Some
    &&& s.worktrees[id].external_paths->0.contains(path)
}

/// A directory counts for a worktree if it is among those known for it, and is in use if it
/// counts for any.
pub proof fn law_counting(s: StoreModel, id: usize, path: AbsKey)
    ensures
        s.uses(id, path) <==> is_counted(s, id, path),
        s.in_use(path) <==> exists|w: usize| #[trigger] is_counted(s, w, path),
{
    if s.in_use(path) {
        let w = choose|w: usize| #[trigger] s.uses(w, path);
        assert(is_counted(s, w, path));
    }
    if exists|w: usize| #[trigger] is_counted(s, w, path) {
        let w = choose|w: usize| #[trigger] is_counted(s, w, path);
        assert(s.uses(w, path));
    }
}

/// To forget a worktree takes it away and leaves the others as they were. A file outside of the
/// worktrees is taken away if and only if it counted for the worktree and counts for no other; one
/// that is kept stays as it was.
pub proof fn law_removal(s: StoreModel, id: usize, other: usize, path: AbsKey)
    requires
        other != id,
    ensures
        ({
            let t = s.without_worktree(id);
            &&& !t.worktrees.contains_key(id)
            &&& t.worktrees.contains_key(other) <==> s.worktrees.contains_key(other)
            &&& s.worktrees.contains_key(other) ==> t.worktrees[other] == s.worktrees[other]
            &&& t.external.contains_key(path) <==> s.external.contains_key(path) && (!is_counted(
                s,
                id,
                path,
            ) || exists|w: usize| w != id && #[trigger] is_counted(s, w, path))
            &&& t.external.contains_key(path) ==> t.external[path] == s.external[path]
        }),
{
    let rest = StoreModel { worktrees: s.worktrees.remove(id), ..s };
    if rest.in_use(path) {
        let w = choose|w: usize| #[trigger] rest.uses(w, path);
        assert(w != id && is_counted(s, w, path));
    }
    if exists|w: usize| w != id && #[trigger] is_counted(s, w, path) {
        let w = choose|w: usize| w != id && #[trigger] is_counted(s, w, path);
        assert(rest.uses(w, path));
    }
}

/// The directories above a worktree are asked for if and only if the worktree is known, has a file
/// of its own, and these directories are not known. To ask notes that, and changes nothing else.
pub proof fn law_asking(s: StoreModel, id: usize, other: usize)
    requires
        other != id,
    ensures
        s.wants_external(id) <==> {
            &&& s.worktrees.contains_key(id)
            &&& s.worktrees[id].external_paths is None
            &&& exists|path: RelKey| #[trigger] s.worktrees[id].internal.contains_key(path)
        },
        s.wants_external(id) ==> {
            let t = s.asked(id);
            &&& t.external == s.external
            &&& t.worktrees.contains_key(id)
            &&& t.worktrees[id].loading
            &&& t.worktrees[id].internal == s.worktrees[id].internal
            &&& t.worktrees[id].external_paths == s.worktrees[id].external_paths
            &&& t.worktrees.contains_key(other) <==> s.worktrees.contains_key(other)
            &&& s.worktrees.contains_key(other) ==> t.worktrees[other] == s.worktrees[other]
        },
{
    if s.worktrees.contains_key(id) {
        let internal = s.worktrees[id].internal;
        if exists|path: RelKey| #[trigger] internal.contains_key(path) {
            let path = choose|path: RelKey| #[trigger] internal.contains_key(path);
            assert(internal.dom().contains(path));
        } else {
            assert(internal =~= Map::empty());
        }
    }
}

/// A search knows exactly the files outside of the worktrees that the store holds, and takes one
/// for a root file if and only if it could be read and says so, whether or not it is watched.
pub proof fn law_known_roots(s: StoreModel, path: AbsKey)
    ensures
        s.known_roots().contains_key(path) <==> s.external.contains_key(path),
        s.external.contains_key(path) ==> (s.known_roots()[path] <==> {
            &&& s.external[path].config.parsed is Some
            &&& s.external[path].config.parsed->0.is_root
        }),
{
}

/// Whether link `i` of a chain is the first that is about a directory.
pub open spec fn is_first_link(
    links: Seq<(AbsKey, Option<ConfigModel>)>,
    path: AbsKey,
    i: int,
) -> bool {
    &&& 0 <= i < links.len()
    &&& links[i].0 == path
    &&& forall|j: int| 0 <= j < i ==> (#[trigger] links[j]).0 != path
}

/// Once a chain was added, each of its directories that was not known holds the file of its first
/// link, or an empty one where the link brings none, and is watched. Directories that were known
/// hold what they held.
pub proof fn law_chain_is_kept(
    s: StoreModel,
    id: usize,
    links: Seq<(AbsKey, Option<ConfigModel>)>,
    path: AbsKey,
    i: int,
)
    requires
        is_first_link(links, path, i),
    ensures
        ({
            let t = s.with_chain(id, links);
            &&& t.external.contains_key(path)
            &&& if s.external.contains_key(path) {
                t.external[path] == s.external[path]
            } else {
                &&& t.external[path].watched
                &&& match links[i].1 {
                    Some(config) => t.external[path].config == config,
                    None => t.external[path].config.content.len() == 0
                        && t.external[path].config.parsed is None,
                }
            }
        }),
{
    lemma_first_link_is_kept(s, links, path, i);
}

proof fn lemma_first_link_is_kept(
    s: StoreModel,
    links: Seq<(AbsKey, Option<ConfigModel>)>,
    path: AbsKey,
    i: int,
)
    requires
        is_first_link(links, path, i),
    ensures
        ({
            let external = chained(s.external, links);
            &&& external.contains_key(path)
            &&& if s.external.contains_key(path) {
                external[path] == s.external[path]
            } else {
                &&& external[path].watched
                &&& match links[i].1 {
                    Some(config) => external[path].config == config,
                    None => external[path].config.content.len() == 0
                        && external[path].config.parsed is None,
                }
            }
        }),
    decreases links.len(),
{
    let rest = links.drop_last();
    if i < rest.len() {
        assert forall|j: int| 0 <= j < i implies (#[trigger] rest[j]).0 != path by {
            assert(rest[j] == links[j]);
        }
        lemma_first_link_is_kept(s, rest, path, i);
    } else {
        assert forall|j: int| 0 <= j < rest.len() implies (#[trigger] rest[j]).0 != path by {
            assert(rest[j] == links[j]);
        }
        lemma_unlinked_is_kept(s, rest, path);
    }
}

proof fn lemma_unlinked_is_kept(
    s: StoreModel,
    links: Seq<(AbsKey, Option<ConfigModel>)>,
    path: AbsKey,
)
    requires
        forall|j: int| 0 <= j < links.len() ==> (#[trigger] links[j]).0 != path,
    ensures
        chained(s.external, links).contains_key(path) <==> s.external.contains_key(path),
        s.external.contains_key(path) ==> chained(s.external, links)[path] == s.external[path],
        !newly_watched(s.external, links).contains(path),
    decreases links.len(),
{
    if links.len() > 0 {
        let rest = links.drop_last();
        assert forall|j: int| 0 <= j < rest.len() implies (#[trigger] rest[j]).0 != path by {
            assert(rest[j] == links[j]);
        }
        lemma_unlinked_is_kept(s, rest, path);
        assert(links[links.len() - 1].0 != path);
        let watched = newly_watched(s.external, links);
        if watched.contains(path) {
            let k = choose|k: int| 0 <= k < watched.len() && watched[k] == path;
            assert(newly_watched(s.external, rest)[k] == path);
        }
    }
}

/// To add a chain changes nothing about a directory that is not in it, about another worktree, or
/// about the files of the worktree. The directories that count for the worktree are those of the
/// chain.
pub proof fn law_chain_changes_no_more(
    s: StoreModel,
    id: usize,
    links: Seq<(AbsKey, Option<ConfigModel>)>,
    path: AbsKey,
    other: usize,
)
    requires
        other != id,
    ensures
        ({
            let t = s.with_chain(id, links);
            let linked = exists|i: int| 0 <= i < links.len() && (#[trigger] links[i]).0 == path;
            &&& !linked ==> (t.external.contains_key(path) <==> s.external.contains_key(path))
            &&& !linked && s.external.contains_key(path) ==> t.external[path] == s.external[path]
            &&& t.worktrees.contains_key(other) <==> s.worktrees.contains_key(other)
            &&& s.worktrees.contains_key(other) ==> t.worktrees[other] == s.worktrees[other]
            &&& is_counted(t, id, path) <==> linked
            &&& t.worktrees[id].external_paths is Some
            &&& if s.worktrees.contains_key(id) {
                t.worktrees[id].internal == s.worktrees[id].internal && t.worktrees[id].loading
                    == s.worktrees[id].loading
            } else {
                t.worktrees[id].internal.dom() == Set::<RelKey>::empty()
                    && !t.worktrees[id].loading
            }
        }),
{
    let t = s.with_chain(id, links);
    let dirs = links.map_values(|link: (AbsKey, Option<ConfigModel>)| link.0);
    if exists|i: int| 0 <= i < links.len() && (#[trigger] links[i]).0 == path {
        let i = choose|i: int| 0 <= i < links.len() && (#[trigger] links[i]).0 == path;
        assert(dirs[i] == path);
        assert(dirs.to_set().contains(path));
    } else {
        lemma_unlinked_is_kept(s, links, path);
        if dirs.to_set().contains(path) {
            let i = choose|i: int| 0 <= i < dirs.len() && dirs[i] == path;
            assert(links[i].0 == path);
        }
    }
    if !s.worktrees.contains_key(id) {
        assert(t.worktrees[id].internal.dom() =~= Set::<RelKey>::empty());
    }
}

/// The directories that are to be watched once a chain was added are those of its links that were
/// not known before, each at its first link, in the order of the links.
pub proof fn law_watch_order(
    s: StoreModel,
    links: Seq<(AbsKey, Option<ConfigModel>)>,
    link: (AbsKey, Option<ConfigModel>),
)
    ensures
        newly_watched(s.external, Seq::empty()) == Seq::<AbsKey>::empty(),
        ({
            let fresh = !s.external.contains_key(link.0) && forall|i: int|
                0 <= i < links.len() ==> (#[trigger] links[i]).0 != link.0;
            newly_watched(s.external, links.push(link)) == if fresh {
                newly_watched(s.external, links).push(link.0)
            } else {
                newly_watched(s.external, links)
            }
        }),
{
    assert(links.push(link).drop_last() =~= links);
    if forall|i: int| 0 <= i < links.len() ==> (#[trigger] links[i]).0 != link.0 {
        lemma_unlinked_is_kept(s, links, link.0);
    } else {
        let i = choose|i: int| 0 <= i < links.len() && (#[trigger] links[i]).0 == link.0;
        let first = lemma_first_link(links, link.0, i);
        lemma_first_link_is_kept(s, links, link.0, first);
    }
    if s.external.contains_key(link.0) {
        lemma_known_stays(s, links, link.0);
    }
}

proof fn lemma_known_stays(s: StoreModel, links: Seq<(AbsKey, Option<ConfigModel>)>, path: AbsKey)
    requires
        s.external.contains_key(path),
    ensures
        chained(s.external, links).contains_key(path),
    decreases links.len(),
{
    if links.len() > 0 {
        lemma_known_stays(s, links.drop_last(), path);
    }
}

/// Where a directory has a link, it has a first one.
proof fn lemma_first_link(
    links: Seq<(AbsKey, Option<ConfigModel>)>,
    path: AbsKey,
    i: int,
) -> (first: int)
    requires
        0 <= i < links.len(),
        links[i].0 == path,
    ensures
        is_first_link(links, path, first),
    decreases i,
{
    if exists|j: int| 0 <= j < i && (#[trigger] links[j]).0 == path {
        let j = choose|j: int| 0 <= j < i && (#[trigger] links[j]).0 == path;
        lemma_first_link(links, path, j)
    } else {
        i
    }
}

/// To follow a change of a watched file replaces the file, if it is held still, and changes
/// nothing else; it stays watched if it was.
pub proof fn law_following(s: StoreModel, path: AbsKey, config: ConfigModel, other: AbsKey)
    requires
        other != path,
    ensures
        ({
            let t = s.with_watched(path, config);
            &&& t.worktrees == s.worktrees
            &&& t.external.contains_key(other) <==> s.external.contains_key(other)
            &&& s.external.contains_key(other) ==> t.external[other] == s.external[other]
            &&& t.external.contains_key(path) <==> s.external.contains_key(path)
            &&& s.external.contains_key(path) ==> {
                &&& t.external[path].config == config
                &&& t.external[path].watched == s.external[path].watched
            }
        }),
{
}

/// The list of a worktree's own files holds each of them once, as it is known, in the order of
/// their directories, and nothing else.
pub proof fn law_worktree_list(s: StoreModel, id: usize)
    requires
        s.finite(),
    ensures
        ({
            let list = s.internal_list(id);
            &&& list.len() > 0 ==> s.worktrees.contains_key(id)
            &&& forall|i: int|
                0 <= i < list.len() ==> {
                    &&& s.worktrees[id].internal.contains_key((#[trigger] list[i]).0)
                    &&& s.worktrees[id].internal[list[i].0] == list[i].1
                }
            &&& forall|i: int, j: int|
                0 <= i < j < list.len() ==> before(
                    RelPath::ranked_by((#[trigger] list[i]).0),
                    RelPath::ranked_by((#[trigger] list[j]).0),
                )
            &&& s.worktrees.contains_key(id) ==> forall|path: RelKey| #[trigger]
                s.worktrees[id].internal.contains_key(path) ==> exists|i: int|
                    0 <= i < list.len() && (#[trigger] list[i]).0 == path
        }),
{
    let list = s.internal_list(id);
    let internal = s.worktree(id).internal;
    assert(internal.dom().finite());
    lemma_in_order_members::<RelPath>(internal.dom());
    let keys = in_order::<RelPath>(internal.dom());
    assert forall|i: int| 0 <= i < list.len() implies {
        &&& s.worktrees.contains_key(id)
        &&& s.worktrees[id].internal.contains_key((#[trigger] list[i]).0)
        &&& s.worktrees[id].internal[list[i].0] == list[i].1
    } by {
        assert(keys.contains(keys[i]));
        assert(internal.contains_key(list[i].0));
    }
    if list.len() > 0 {
        assert(s.worktrees[id].internal.contains_key(list[0].0));
    }
    assert forall|i: int, j: int| 0 <= i < j < list.len() implies before(
        RelPath::ranked_by((#[trigger] list[i]).0),
        RelPath::ranked_by((#[trigger] list[j]).0),
    ) by {
        assert(list[i].0 == keys[i] && list[j].0 == keys[j]);
    }
    if s.worktrees.contains_key(id) {
        assert forall|path: RelKey| #[trigger]
            s.worktrees[id].internal.contains_key(path) implies exists|i: int|
            0 <= i < list.len() && (#[trigger] list[i]).0 == path by {
            assert(internal.dom().contains(path));
            assert(keys.contains(path));
            let i = choose|i: int| 0 <= i < keys.len() && keys[i] == path;
            assert(list[i].0 == path);
        }
    }
}

/// The list of the files outside of a worktree holds each file that counts for it and is held
/// once, as it is held, in the order of their directories, and nothing else.
pub proof fn law_external_list(s: StoreModel, id: usize)
    requires
        s.finite(),
    ensures
        ({
            let list = s.external_list(id);
            &&& forall|i: int|
                0 <= i < list.len() ==> {
                    &&& is_counted(s, id, (#[trigger] list[i]).0)
                    &&& s.external.contains_key(list[i].0)
                    &&& s.external[list[i].0].config == list[i].1
                }
            &&& forall|i: int, j: int|
                0 <= i < j < list.len() ==> before(
                    AbsPath::ranked_by((#[trigger] list[i]).0),
                    AbsPath::ranked_by((#[trigger] list[j]).0),
                )
            &&& forall|path: AbsKey|
                is_counted(s, id, path) && #[trigger] s.external.contains_key(path) ==> exists|
                    i: int,
                | 0 <= i < list.len() && (#[trigger] list[i]).0 == path
        }),
{
    let list = s.external_list(id);
    lemma_external_members(s, id);
    let members = Set::new(|path: AbsKey| s.uses(id, path) && s.external.contains_key(path));
    lemma_in_order_members::<AbsPath>(members);
    let keys = in_order::<AbsPath>(members);
    assert forall|i: int| 0 <= i < list.len() implies {
        &&& is_counted(s, id, (#[trigger] list[i]).0)
        &&& s.external.contains_key(list[i].0)
        &&& s.external[list[i].0].config == list[i].1
    } by {
        assert(keys.contains(keys[i]));
    }
    assert forall|i: int, j: int| 0 <= i < j < list.len() implies before(
        AbsPath::ranked_by((#[trigger] list[i]).0),
        AbsPath::ranked_by((#[trigger] list[j]).0),
    ) by {
        assert(list[i].0 == keys[i] && list[j].0 == keys[j]);
    }
    assert forall|path: AbsKey|
        is_counted(s, id, path) && #[trigger] s.external.contains_key(path) implies exists|i: int|
        0 <= i < list.len() && (#[trigger] list[i]).0 == path by {
        assert(members.contains(path));
        assert(keys.contains(path));
        let i = choose|i: int| 0 <= i < keys.len() && keys[i] == path;
        assert(list[i].0 == path);
    }
}

/// The list of all files that count for a worktree is the list of those outside of it, followed by
/// the list of its own.
pub proof fn law_whole_list(s: StoreModel, id: usize, i: int)
    requires
        0 <= i < s.list(id).len(),
    ensures
        s.list(id).len() == s.external_list(id).len() + s.internal_list(id).len(),
        i < s.external_list(id).len() ==> s.list(id)[i] == (
            LocalPathModel::OutsideWorktree(s.external_list(id)[i].0),
            s.external_list(id)[i].1,
        ),
        i >= s.external_list(id).len() ==> s.list(id)[i] == (
            LocalPathModel::InWorktree(s.internal_list(id)[i - s.external_list(id).len()].0),
            s.internal_list(id)[i - s.external_list(id).len()].1,
        ),
{
}

} // verus!
