//! Finding the configuration files above a worktree, and following their changes.
use vstd::prelude::*;

use crate::config::{parsed, Editorconfig, EditorconfigError};
use crate::model::{
    chained, is_root, newly_watched, told, AbsKey, ConfigModel, StoreModel, WalkModel,
};
use crate::paths::{editorconfig_in, AbsPath, LocalPathModel, LocalSettingsPath, WorktreeId};
use crate::sorted_map::{lemma_push_members, SortedMap};
use crate::store::{
    events_model, parsed_model, EditorconfigData, EditorconfigEvent, EditorconfigStore,
};
use std::str::FromStr;

verus! {

/// A directory with a configuration file; with the file, where it was not known before.
pub type ChainLink = (AbsPath, Option<EditorconfigData>);

/// What a link of a chain says.
pub open spec fn link_model(link: ChainLink) -> (AbsKey, Option<ConfigModel>) {
    (
        link.0@,
        match link.1 {
            Some(data) => Some(data@),
            None => None,
        },
    )
}

/// What a chain says.
pub open spec fn chain_model(chain: Seq<ChainLink>) -> Seq<(AbsKey, Option<ConfigModel>)> {
    chain.map_values(|link: ChainLink| link_model(link))
}

/// A walk up the directories above a worktree, in search of configuration files. Whoever runs it
/// asks for the next file, loads it, and says what came of it, until there is no next file.
pub struct ExternalConfigWalk {
    known: SortedMap<AbsPath, bool>,
    current: Option<AbsPath>,
    found: Vec<ChainLink>,
}

impl View for ExternalConfigWalk {
    type V = WalkModel;

    closed spec fn view(&self) -> WalkModel {
        WalkModel {
            known: self.known@,
            current: match self.current {
                Some(dir) => Some(dir@),
                None => None,
            },
            found: chain_model(self.found@),
        }
    }
}

impl ExternalConfigWalk {
    pub closed spec fn wf(self) -> bool {
        self.known.wf()
    }

    /// Records a file in the current directory and goes on, or stops at a root file.
    fn record(&mut self, data: Option<EditorconfigData>, root: bool)
        requires
            old(self).wf(),
        ensures
            final(self).wf(),
            final(self)@ == old(self)@.with_found(
                match data {
                    Some(data) => Some(data@),
                    None => None,
                },
                root,
            ),
    {
        let ghost before = *self;
        let current = self.current.take();
        match current {
            None => {},
            Some(dir) => {
                let outer = if root {
                    None
                } else {
                    dir.parent()
                };
                let link: ChainLink = (dir, data);
                self.found.push(link);
                self.current = outer;
                assert(chain_model(self.found@) =~= chain_model(before.found@).push(
                    link_model(link),
                ));
            },
        }
    }

    /// The file that is to be loaded next; `None` once the walk is over. Directories whose files
    /// were known before are passed on the way.
    pub fn next_file(&mut self) -> (file: Option<AbsPath>)
        requires
            old(self).wf(),
        ensures
            final(self).wf(),
            final(self)@ == old(self)@.past_known(),
            match file {
                Some(file) => final(self)@.current matches Some(dir) && file@ == editorconfig_in(
                    dir,
                ),
                None => final(self)@.current is None,
            },
    {
        loop
            invariant
                self.wf(),
                self@.past_known() == old(self)@.past_known(),
            decreases
                    (match self@.current {
                        None => 0,
                        Some(dir) => dir.len() + 1,
                    }),
        {
            let (root, file) = match &self.current {
                None => {
                    return None;
                },
                Some(dir) => match self.known.get(dir) {
                    Some(root) => (Some(*root), None),
                    None => (None, Some(dir.editorconfig_file())),
                },
            };
            match root {
                Some(root) => {
                    self.record(None, root);
                },
                None => {
                    return file;
                },
            }
        }
    }

    /// Says that the file could not be loaded.
    pub fn file_missing(&mut self)
        requires
            old(self).wf(),
        ensures
            final(self).wf(),
            final(self)@ == old(self)@.with_nothing(),
    {
        let current = self.current.take();
        match current {
            None => {},
            Some(dir) => {
                self.current = dir.parent();
            },
        }
    }

    /// Says what text the file has, given what came of reading it.
    pub fn file_read(&mut self, content: String, read: Option<Editorconfig>)
        requires
            old(self).wf(),
        ensures
            final(self).wf(),
            final(self)@ == old(self)@.with_found(
                Some(ConfigModel { content: content@, parsed: parsed_model(read) }),
                is_root(parsed_model(read)),
            ),
    {
        let root = match &read {
            Some(editorconfig) => editorconfig.is_root,
            None => false,
        };
        self.record(Some(EditorconfigData::new(content, read)), root);
    }

    /// Says what text the file has, and tells why it could not be read if it could not.
    pub fn file_loaded(&mut self, content: String) -> (error: Option<EditorconfigError>)
        requires
            old(self).wf(),
        ensures
            final(self).wf(),
            final(self)@ == old(self)@.with_found(
                Some(ConfigModel { content: content@, parsed: parsed(content@) }),
                is_root(parsed(content@)),
            ),
            match error {
                Some(error) => parsed(content@) is None && error.text()
                    == crate::config::parse_message(content@),
                None => parsed(content@) is Some,
            },
    {
        match Editorconfig::from_str(content.as_str()) {
            Ok(editorconfig) => {
                self.file_read(content, Some(editorconfig));
                None
            },
            Err(error) => {
                self.file_read(content, None);
                Some(error)
            },
        }
    }

    /// What the walk has found.
    pub fn into_chain(self) -> (chain: Vec<ChainLink>)
        ensures
            chain_model(chain@) == self@.found,
    {
        self.found
    }
}

impl EditorconfigStore {
    /// Whether the directories above a worktree are to be searched, which is then noted. They are
    /// searched for a worktree that has configuration files of its own, and for which they are
    /// not yet known.
    pub fn load_external_configs(&mut self, worktree_id: WorktreeId) -> (load: bool)
        requires
            old(self).wf(),
        ensures
            final(self).wf(),
            load == old(self)@.wants_external(worktree_id@),
            final(self)@ == (if load {
                old(self)@.asked(worktree_id@)
            } else {
                old(self)@
            }),
    {
        let id: usize = worktree_id.to_usize();
        let ghost before = self@;
        match self.worktree_editorconfig_state.get(&id) {
            None => {
                return false;
            },
            Some(state) => {
                proof {
                    assert(before.worktrees[id].internal.is_empty()
                        <==> state.internal_configs@.is_empty()) by {
                        assert(before.worktrees[id].internal.dom()
                            =~= state.internal_configs@.dom());
                    }
                }
                if state.external_config_paths.is_some() {
                    return false;
                }
                if state.internal_configs.is_empty() {
                    return false;
                }
            },
        }
        let mut state = self.take_state(id);
        state.external_configs_loading = true;
        self.put_state(id, state);
        assert(self@ =~= before.asked(id));
        true
    }

    /// The walk up the directories above a worktree.
    pub fn reload_external_config_chain(&self, worktree_path: &AbsPath) -> (walk:
        ExternalConfigWalk)
        requires
            self.wf(),
        ensures
            walk.wf(),
            walk@ == WalkModel::start(self@.known_roots(), worktree_path@),
    {
        let mut known: SortedMap<AbsPath, bool> = SortedMap::new();
        let configs = &self.external_configs;
        let ghost roots = self@.known_roots();
        let mut i: usize = 0;
        while i < configs.len()
            invariant
                self.wf(),
                configs == &self.external_configs,
                configs.wf(),
                known.wf(),
                roots == self@.known_roots(),
                i <= configs.keys().len(),
                known@ == roots.restrict(configs.keys().take(i as int).to_set()),
            decreases configs.keys().len() - i,
        {
            let root = match &configs.value_at(i).config.parsed {
                Some(editorconfig) => editorconfig.is_root,
                None => false,
            };
            let path = configs.key_at(i);
            let ghost earlier = known@;
            known.insert(path.clone(), root);
            proof {
                configs.lemma_entries();
                let done = configs.keys().take(i as int);
                assert(configs.keys().take(i + 1) =~= done.push(path@));
                lemma_push_members(done, path@);
                assert(configs@.contains_key(configs.keys()[i as int]));
                assert(roots[path@] == root);
                assert(known@ =~= roots.restrict(configs.keys().take(i + 1).to_set()));
            }
            i = i + 1;
        }
        proof {
            configs.lemma_entries();
            assert(configs.keys().take(i as int) =~= configs.keys());
            assert(known@ =~= roots);
        }
        let walk = ExternalConfigWalk {
            known,
            current: worktree_path.parent(),
            found: Vec::new(),
        };
        assert(walk@ =~= WalkModel::start(roots, worktree_path@));
        walk
    }

    /// Takes note of the directories above a worktree that have configuration files. Gives the
    /// directories whose files have to be watched from now on.
    pub fn apply_external_configs(&mut self, worktree_id: WorktreeId, chain: Vec<ChainLink>) -> (
    watch: Vec<AbsPath>)
        requires
            old(self).wf(),
        ensures
            final(self).wf(),
            final(self)@ == old(self)@.with_chain(worktree_id@, chain_model(chain@)),
            watch@.map_values(|path: AbsPath| path@) == newly_watched(
                old(self)@.external,
                chain_model(chain@),
            ),
    {
        let id: usize = worktree_id.to_usize();
        let ghost before = self@;
        let ghost model = chain_model(chain@);
        let ghost dirs = model.map_values(|link: (AbsKey, Option<ConfigModel>)| link.0);
        let mut paths: SortedMap<AbsPath, ()> = SortedMap::new();
        let mut watch: Vec<AbsPath> = Vec::new();
        let mut chain = chain;
        let ghost mut i: int = 0;
        assert(paths@.dom() =~= dirs.take(0).to_set());
        assert(model.take(0) =~= Seq::<(AbsKey, Option<ConfigModel>)>::empty());
        assert(watch@.map_values(|path: AbsPath| path@) =~= Seq::<AbsKey>::empty());
        assert(model.skip(0) =~= model);
        while chain.len() > 0
            invariant
                self.wf(),
                paths.wf(),
                0 <= i <= model.len(),
                dirs == model.map_values(|link: (AbsKey, Option<ConfigModel>)| link.0),
                chain_model(chain@) == model.skip(i),
                paths@.dom() == dirs.take(i).to_set(),
                self@ == (StoreModel {
                    external: chained(before.external, model.take(i)),
                    ..before
                }),
                watch@.map_values(|path: AbsPath| path@) == newly_watched(
                    before.external,
                    model.take(i),
                ),
            decreases chain@.len(),
        {
            let ghost rest = chain@;
            let (path, data) = chain.remove(0);
            proof {
                assert(chain_model(rest).len() == rest.len());
                assert(model.skip(i).len() == model.len() - i);
                assert(model.skip(i)[0] == model[i]);
                assert(chain_model(rest)[0] == link_model(rest[0]));
                assert(chain_model(chain@) =~= model.skip(i + 1)) by {
                    assert forall|j: int| 0 <= j < chain@.len() implies chain_model(chain@)[j]
                        == model.skip(i + 1)[j] by {
                        assert(chain@[j] == rest[j + 1]);
                        assert(chain_model(rest)[j + 1] == link_model(rest[j + 1]));
                        assert(model.skip(i)[j + 1] == model[i + 1 + j]);
                    }
                }
                assert(model.take(i + 1).drop_last() =~= model.take(i));
                assert(model.take(i + 1).last() == model[i]);
                assert(dirs.take(i + 1) =~= dirs.take(i).push(path@));
                lemma_push_members(dirs.take(i), path@);
            }
            let ghost known = paths@.dom();
            let ghost watched = watch@;
            paths.insert(path.clone(), ());
            assert(paths@.dom() =~= known.insert(path@));
            if !self.external_configs.contains_key(&path) {
                let config = match data {
                    Some(data) => data,
                    None => EditorconfigData::default(),
                };
                let copy = path.clone();
                watch.push(copy);
                assert(watch@.map_values(|path: AbsPath| path@) =~= watched.map_values(
                    |path: AbsPath| path@,
                ).push(copy@));
                self.put_external(path, config, true);
            }
            proof {
                i = i + 1;
            }
        }
        proof {
            assert(model.take(i) =~= model);
            assert(dirs.take(i) =~= dirs);
        }
        let mut state = self.take_state(id);
        state.external_config_paths = Some(paths);
        self.put_state(id, state);
        assert(self@ =~= before.with_chain(id, model));
        watch
    }

    /// Takes note of a new text of a watched file, given what came of reading it.
    pub fn update_watched_config(
        &mut self,
        worktree_id: WorktreeId,
        dir_path: AbsPath,
        content: String,
        read: Option<Editorconfig>,
        events: &mut Vec<EditorconfigEvent>,
    )
        requires
            old(self).wf(),
        ensures
            final(self).wf(),
            final(self)@ == old(self)@.with_watched(
                dir_path@,
                ConfigModel { content: content@, parsed: parsed_model(read) },
            ),
            events_model(final(events)@) == told(
                events_model(old(events)@),
                worktree_id@,
                LocalPathModel::OutsideWorktree(dir_path@),
            ),
    {
        let ghost before = self@;
        let watched = match self.external_configs.get(&dir_path) {
            Some(data) => Some(data.watched),
            None => None,
        };
        match watched {
            Some(watched) => {
                let data = EditorconfigData::new(content, read);
                self.put_external(dir_path.clone(), data, watched);
            },
            None => {},
        }
        Self::tell(worktree_id, &LocalSettingsPath::OutsideWorktree(dir_path), events);
    }

    /// Takes note of a new text of a watched file, and tells why it could not be read if it could
    /// not. A file without text is taken to be gone.
    pub fn watched_config_changed(
        &mut self,
        worktree_id: WorktreeId,
        dir_path: AbsPath,
        content: String,
        events: &mut Vec<EditorconfigEvent>,
    ) -> (error: Option<EditorconfigError>)
        requires
            old(self).wf(),
        ensures
            final(self).wf(),
            final(self)@ == old(self)@.with_watched(
                dir_path@,
                ConfigModel {
                    content: content@,
                    parsed: if content@.len() == 0 {
                        None
                    } else {
                        parsed(content@)
                    },
                },
            ),
            events_model(final(events)@) == told(
                events_model(old(events)@),
                worktree_id@,
                LocalPathModel::OutsideWorktree(dir_path@),
            ),
            match error {
                Some(error) => content@.len() > 0 && parsed(content@) is None && error.text()
                    == crate::config::parse_message(content@),
                None => content@.len() == 0 || parsed(content@) is Some,
            },
    {
        if content.as_str().is_empty() {
            self.update_watched_config(worktree_id, dir_path, content, None, events);
            return None;
        }
        match Editorconfig::from_str(content.as_str()) {
            Ok(editorconfig) => {
                self.update_watched_config(
                    worktree_id,
                    dir_path,
                    content,
                    Some(editorconfig),
                    events,
                );
                None
            },
            Err(error) => {
                self.update_watched_config(worktree_id, dir_path, content, None, events);
                Some(error)
            },
        }
    }
}

/// A chain says of each link its directory, and the file that it brings, if it brings one.
pub proof fn law_chain_model(chain: Seq<ChainLink>, i: int)
    requires
        0 <= i < chain.len(),
    ensures
        chain_model(chain).len() == chain.len(),
        chain_model(chain)[i].0 == chain[i].0@,
        chain_model(chain)[i].1 is Some <==> chain[i].1 is Some,
        chain[i].1 matches Some(data) ==> chain_model(chain)[i].1 == Some(data@),
{
}

} // verus!
