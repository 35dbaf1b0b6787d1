//! The configuration files that count for a worktree.
use vstd::prelude::*;

use crate::config::Editorconfig;
use crate::model::{AbsKey, ConfigModel, RelKey};
use crate::paths::{AbsPath, LocalPathModel, LocalSettingsPath, RelPath, WorktreeId};
use crate::sorted_map::{ascending, lemma_in_order, lemma_push_members, OrderedKey};
use crate::store::{EditorconfigData, EditorconfigStore};

verus! {

/// What an entry of a list says.
pub open spec fn entry_model<K: View>(entry: (K, &str, Option<&Editorconfig>)) -> (
    K::V,
    ConfigModel,
) {
    (
        entry.0@,
        ConfigModel {
            content: entry.1@,
            parsed: match entry.2 {
                Some(editorconfig) => Some(editorconfig@),
                None => None,
            },
        },
    )
}

/// What a list says.
pub open spec fn list_model<K: View>(list: Seq<(K, &str, Option<&Editorconfig>)>) -> Seq<
    (K::V, ConfigModel),
> {
    list.map_values(|entry: (K, &str, Option<&Editorconfig>)| entry_model(entry))
}

impl EditorconfigData {
    fn text(&self) -> (text: &str)
        ensures
            text@ == self@.content,
    {
        self.content.as_str()
    }

    fn read(&self) -> (read: Option<&Editorconfig>)
        ensures
            self@.parsed == (match read {
                Some(editorconfig) => Some(editorconfig@),
                None => None,
            }),
    {
        match &self.parsed {
            Some(editorconfig) => Some(editorconfig),
            None => None,
        }
    }
}

/// An ascending sequence stays so where a later key is added.
proof fn lemma_push_ascending<K: OrderedKey>(s: Seq<K::V>, key: K::V)
    requires
        ascending::<K>(s),
        forall|i: int|
            0 <= i < s.len() ==> crate::order::before(
                K::ranked_by(#[trigger] s[i]),
                K::ranked_by(key),
            ),
    ensures
        ascending::<K>(s.push(key)),
{
}

impl EditorconfigStore {
    /// The files in a worktree.
    pub(super) fn internal_configs(&self, root_id: WorktreeId) -> (list: Vec<
        (&RelPath, &str, Option<&Editorconfig>),
    >)
        requires
            self.wf(),
        ensures
            list_model(list@) == self@.internal_list(root_id@),
    {
        let id: usize = root_id.to_usize();
        let mut list: Vec<(&RelPath, &str, Option<&Editorconfig>)> = Vec::new();
        match self.worktree_editorconfig_state.get(&id) {
            None => {
                proof {
                    let none = Seq::<RelKey>::empty();
                    lemma_in_order::<RelPath>(none);
                    assert(self@.worktree(id).internal.dom() =~= none.to_set());
                    assert(list_model(list@) =~= self@.internal_list(id));
                }
            },
            Some(state) => {
                let configs = &state.internal_configs;
                let mut i: usize = 0;
                while i < configs.len()
                    invariant
                        configs.wf(),
                        i <= configs.keys().len(),
                        list@.len() == i,
                        forall|j: int|
                            0 <= j < i ==> entry_model(#[trigger] list@[j]) == (
                                configs.keys()[j],
                                configs.vals()[j]@,
                            ),
                    decreases configs.keys().len() - i,
                {
                    proof {
                        configs.lemma_entries();
                    }
                    let data = configs.value_at(i);
                    list.push((configs.key_at(i), data.text(), data.read()));
                    i = i + 1;
                }
                proof {
                    configs.lemma_entries();
                    let internal = self@.worktree(id).internal;
                    assert(internal.dom() =~= configs@.dom());
                    assert forall|j: int| 0 <= j < list@.len() implies list_model(list@)[j]
                        == self@.internal_list(id)[j] by {
                        assert(entry_model(list@[j]) == (configs.keys()[j], configs.vals()[j]@));
                        assert(configs@.contains_key(configs.keys()[j]));
                    }
                    assert(list_model(list@) =~= self@.internal_list(id));
                }
            },
        }
        list
    }

    /// The files outside of the worktrees that count for a worktree.
    pub(super) fn external_configs(&self, worktree_id: WorktreeId) -> (list: Vec<
        (&AbsPath, &str, Option<&Editorconfig>),
    >)
        requires
            self.wf(),
        ensures
            list_model(list@) == self@.external_list(worktree_id@),
    {
        let id: usize = worktree_id.to_usize();
        let mut list: Vec<(&AbsPath, &str, Option<&Editorconfig>)> = Vec::new();
        let ghost mut keys: Seq<AbsKey> = Seq::empty();
        let ghost members = Set::new(
            |path: AbsKey| self@.uses(id, path) && self@.external.contains_key(path),
        );
        let paths = match self.worktree_editorconfig_state.get(&id) {
            None => None,
            Some(state) => match &state.external_config_paths {
                None => None,
                Some(paths) => Some(paths),
            },
        };
        match paths {
            None => {
                assert(members =~= keys.to_set());
            },
            Some(paths) => {
                let mut i: usize = 0;
                while i < paths.len()
                    invariant
                        self.wf(),
                        paths.wf(),
                        i <= paths.keys().len(),
                        ascending::<AbsPath>(keys),
                        list@.len() == keys.len(),
                        forall|key: AbsKey| #[trigger]
                            keys.contains(key) <==> paths.keys().take(i as int).contains(key)
                                && self@.external.contains_key(key),
                        forall|j: int|
                            0 <= j < list@.len() ==> entry_model(#[trigger] list@[j]) == (
                                keys[j],
                                self@.external[keys[j]].config,
                            ),
                    decreases paths.keys().len() - i,
                {
                    let path = paths.key_at(i);
                    let ghost done = paths.keys().take(i as int);
                    proof {
                        paths.lemma_entries();
                        assert(paths.keys().take(i + 1) =~= done.push(path@));
                        lemma_push_members(done, path@);
                        lemma_push_members(keys, path@);
                        assert forall|j: int| 0 <= j < keys.len() implies crate::order::before(
                            AbsPath::ranked_by(#[trigger] keys[j]),
                            AbsPath::ranked_by(path@),
                        ) by {
                            assert(keys.contains(keys[j]));
                            let m = choose|m: int| 0 <= m < done.len() && done[m] == keys[j];
                            assert(paths.keys()[m] == keys[j]);
                            assert(paths.keys()[i as int] == path@);
                        }
                        lemma_push_ascending::<AbsPath>(keys, path@);
                    }
                    match self.external_configs.get(path) {
                        Some(data) => {
                            list.push((path, data.config.text(), data.config.read()));
                            proof {
                                keys = keys.push(path@);
                            }
                        },
                        None => {},
                    }
                    i = i + 1;
                }
                proof {
                    paths.lemma_entries();
                    assert(paths.keys().take(i as int) =~= paths.keys());
                    assert forall|key: AbsKey| keys.to_set().contains(key)
                        == members.contains(key) by {
                        assert(keys.contains(key) <==> paths.keys().contains(key)
                            && self@.external.contains_key(key));
                        assert(paths.keys().to_set().contains(key) <==> paths.keys().contains(key));
                    }
                    assert(keys.to_set() =~= members);
                }
            },
        }
        proof {
            lemma_in_order::<AbsPath>(keys);
            assert(list_model(list@) =~= self@.external_list(id));
        }
        list
    }

    /// The files that count for a worktree, those outside of it first.
    pub fn get_configs(&self, worktree_id: WorktreeId) -> (list: Vec<
        (LocalSettingsPath, &str, Option<&Editorconfig>),
    >)
        requires
            self.wf(),
        ensures
            list_model(list@) == self@.list(worktree_id@),
    {
        let external = self.external_configs(worktree_id);
        let internal = self.internal_configs(worktree_id);
        let mut list: Vec<(LocalSettingsPath, &str, Option<&Editorconfig>)> = Vec::new();
        let ghost id = worktree_id@;
        let mut i: usize = 0;
        while i < external.len()
            invariant
                i <= external@.len(),
                list@.len() == i,
                forall|j: int|
                    0 <= j < i ==> entry_model(#[trigger] list@[j]) == (
                        LocalPathModel::OutsideWorktree(external@[j].0@),
                        entry_model(external@[j]).1,
                    ),
            decreases external@.len() - i,
        {
            let (path, content, parsed) = external[i];
            list.push((LocalSettingsPath::OutsideWorktree(path.clone()), content, parsed));
            i = i + 1;
        }
        let mut k: usize = 0;
        while k < internal.len()
            invariant
                k <= internal@.len(),
                list@.len() == external@.len() + k,
                forall|j: int|
                    0 <= j < external@.len() ==> entry_model(#[trigger] list@[j]) == (
                        LocalPathModel::OutsideWorktree(external@[j].0@),
                        entry_model(external@[j]).1,
                    ),
                forall|j: int|
                    external@.len() <= j < list@.len() ==> entry_model(#[trigger] list@[j]) == (
                        LocalPathModel::InWorktree(internal@[j - external@.len()].0@),
                        entry_model(internal@[j - external@.len()]).1,
                    ),
            decreases internal@.len() - k,
        {
            let (path, content, parsed) = internal[k];
            list.push((LocalSettingsPath::InWorktree(path.clone()), content, parsed));
            k = k + 1;
        }
        proof {
            let outer = self@.external_list(id);
            let inner = self@.internal_list(id);
            assert(outer.len() == external@.len());
            assert(inner.len() == internal@.len());
            assert forall|j: int| 0 <= j < list@.len() implies list_model(list@)[j] == self@.list(
                id,
            )[j] by {
                if j < external@.len() {
                    assert(list_model(external@)[j] == outer[j]);
                } else {
                    assert(list_model(internal@)[j - external@.len()] == inner[j
                        - external@.len()]);
                }
                assert(entry_model(list@[j]) == self@.list(id)[j]);
            }
            assert(list_model(list@) =~= self@.list(id));
        }
        list
    }
}

/// A list says of each entry its path, its text, and what it says where it could be read.
pub proof fn law_list_model<K: View>(list: Seq<(K, &str, Option<&Editorconfig>)>, i: int)
    requires
        0 <= i < list.len(),
    ensures
        list_model(list).len() == list.len(),
        list_model(list)[i].0 == list[i].0@,
        list_model(list)[i].1.content == list[i].1@,
        list_model(list)[i].1.parsed is Some <==> list[i].2 is Some,
        list[i].2 matches Some(editorconfig) ==> {
            &&& list_model(list)[i].1.parsed->0.is_root == editorconfig.is_root
            &&& list_model(list)[i].1.parsed->0.sections == crate::outside::held_sections(
                editorconfig.sections,
            )
        },
{
}

} // verus!
