//! The store itself.
use vstd::prelude::*;
use vstd::std_specs::iter::IteratorSpec;

use crate::config::{parse_message, parsed, Editorconfig, EditorconfigError, EditorconfigModel};
use crate::model::{
    file_in, no_config, no_worktree, told, AbsKey, ConfigModel, EventModel, ExternalModel,
    StoreModel, WorktreeModel,
};
use crate::paths::{AbsPath, LocalSettingsPath, RelPath, WorktreeId};
use crate::sorted_map::{lemma_push_members, SortedMap};
use std::collections::BTreeMap;
use std::str::FromStr;

pub mod listing;
pub mod loading;
pub mod resolve;

verus! {

/// A configuration file: its text, and what it says where it could be read.
pub struct EditorconfigData {
    content: String,
    parsed: Option<Editorconfig>,
}

/// What a file says, where it could be read.
pub open spec fn parsed_model(parsed: Option<Editorconfig>) -> Option<EditorconfigModel> {
    match parsed {
        Some(editorconfig) => Some(editorconfig@),
        None => None,
    }
}

impl View for EditorconfigData {
    type V = ConfigModel;

    closed spec fn view(&self) -> ConfigModel {
        ConfigModel { content: self.content@, parsed: parsed_model(self.parsed) }
    }
}

impl EditorconfigData {
    pub fn new(content: String, parsed: Option<Editorconfig>) -> (data: EditorconfigData)
        ensures
            data@ == (ConfigModel { content: content@, parsed: parsed_model(parsed) }),
    {
        EditorconfigData { content, parsed }
    }
}

impl Default for EditorconfigData {
    fn default() -> (data: Self)
        ensures
            data@ == no_config(),
    {
        EditorconfigData { content: String::new(), parsed: None }
    }
}

/// A configuration file outside of every worktree.
struct ExternalEditorconfigData {
    config: EditorconfigData,
    /// Whether changes of the file are followed.
    watched: bool,
}

impl View for ExternalEditorconfigData {
    type V = ExternalModel;

    closed spec fn view(&self) -> ExternalModel {
        ExternalModel { config: self.config@, watched: self.watched }
    }
}

/// Tells that the configuration of a worktree has changed.
#[derive(Debug, PartialEq, Eq)]
pub enum EditorconfigEvent {
    InternalConfigChanged { worktree_id: WorktreeId, path: RelPath },
    ExternalConfigChanged { worktree_id: WorktreeId, abs_path: AbsPath },
}

impl View for EditorconfigEvent {
    type V = EventModel;

    open spec fn view(&self) -> EventModel {
        match self {
            EditorconfigEvent::InternalConfigChanged { worktree_id, path } =>
                EventModel::InternalConfigChanged { worktree_id: worktree_id@, path: path@ },
            EditorconfigEvent::ExternalConfigChanged { worktree_id, abs_path } =>
                EventModel::ExternalConfigChanged { worktree_id: worktree_id@, abs_path: abs_path@ },
        }
    }
}

impl Clone for EditorconfigEvent {
    fn clone(&self) -> (copy: Self)
        ensures
            copy@ == self@,
    {
        match self {
            EditorconfigEvent::InternalConfigChanged { worktree_id, path } =>
                EditorconfigEvent::InternalConfigChanged {
                    worktree_id: *worktree_id,
                    path: path.clone(),
                },
            EditorconfigEvent::ExternalConfigChanged { worktree_id, abs_path } =>
                EditorconfigEvent::ExternalConfigChanged {
                    worktree_id: *worktree_id,
                    abs_path: abs_path.clone(),
                },
        }
    }
}

/// What events tell.
pub open spec fn events_model(events: Seq<EditorconfigEvent>) -> Seq<EventModel> {
    events.map_values(|event: EditorconfigEvent| event@)
}

/// Why settings are not accepted.
#[derive(Debug, PartialEq, Eq)]
pub enum InvalidSettingsError {
    Editorconfig { path: LocalSettingsPath, message: String },
}

/// What is known of a worktree.
pub struct WorktreeEditorconfigState {
    internal_configs: SortedMap<RelPath, EditorconfigData>,
    external_config_paths: Option<SortedMap<AbsPath, ()>>,
    external_configs_loading: bool,
}

impl View for WorktreeEditorconfigState {
    type V = WorktreeModel;

    closed spec fn view(&self) -> WorktreeModel {
        WorktreeModel {
            internal: self.internal_configs@.map_values(|data: EditorconfigData| data@),
            external_paths: match self.external_config_paths {
                Some(paths) => Some(paths@.dom()),
                None => None,
            },
            loading: self.external_configs_loading,
        }
    }
}

impl WorktreeEditorconfigState {
    pub closed spec fn wf(self) -> bool {
        &&& self.internal_configs.wf()
        &&& self.external_config_paths matches Some(paths) ==> paths.wf()
    }
}

impl Default for WorktreeEditorconfigState {
    fn default() -> (state: Self)
        ensures
            state.wf(),
            state@ == no_worktree(),
    {
        let state = WorktreeEditorconfigState {
            internal_configs: SortedMap::new(),
            external_config_paths: None,
            external_configs_loading: false,
        };
        assert(state@ =~= no_worktree());
        state
    }
}

/// The EditorConfig files that govern a set of worktrees.
pub struct EditorconfigStore {
    /// The files outside of the worktrees, which worktrees share.
    external_configs: SortedMap<AbsPath, ExternalEditorconfigData>,
    worktree_editorconfig_state: BTreeMap<usize, WorktreeEditorconfigState>,
}

impl View for EditorconfigStore {
    type V = StoreModel;

    closed spec fn view(&self) -> StoreModel {
        StoreModel {
            external: self.external_configs@.map_values(|data: ExternalEditorconfigData| data@),
            worktrees: self.worktree_editorconfig_state@.map_values(
                |state: WorktreeEditorconfigState| state@,
            ),
        }
    }
}

impl Default for EditorconfigStore {
    fn default() -> (store: Self)
        ensures
            store.wf(),
            store@ == StoreModel::empty(),
    {
        let store = EditorconfigStore {
            external_configs: SortedMap::new(),
            worktree_editorconfig_state: BTreeMap::new(),
        };
        assert(store@ =~= StoreModel::empty());
        store
    }
}

impl EditorconfigStore {
    pub closed spec fn wf(self) -> bool {
        &&& self.external_configs.wf()
        &&& forall|id: usize|
            self.worktree_editorconfig_state@.contains_key(id)
                ==> (#[trigger] self.worktree_editorconfig_state@[id]).wf()
    }

    /// The store knows finitely many files.
    pub proof fn lemma_finite(&self)
        requires
            self.wf(),
        ensures
            self@.finite(),
    {
        self.external_configs.lemma_entries();
        assert(self@.external.dom() =~= self.external_configs@.dom());
        assert forall|id: usize| self@.worktrees.contains_key(id) implies {
            &&& (#[trigger] self@.worktrees[id]).internal.dom().finite()
            &&& self@.worktrees[id].external_paths matches Some(paths) ==> paths.finite()
        } by {
            let state = self.worktree_editorconfig_state@[id];
            assert(state.wf());
            state.internal_configs.lemma_entries();
            assert(state@.internal.dom() =~= state.internal_configs@.dom());
            if state.external_config_paths is Some {
                state.external_config_paths->0.lemma_entries();
            }
        }
    }

    /// Whether changes of the file in a directory are to be followed.
    pub fn is_watched(&self, dir_path: &AbsPath) -> (watched: bool)
        requires
            self.wf(),
        ensures
            watched == (self@.external.contains_key(dir_path@)
                && self@.external[dir_path@].watched),
    {
        match self.external_configs.get(dir_path) {
            Some(data) => data.watched,
            None => false,
        }
    }

    /// Takes out what is known of a worktree.
    fn take_state(&mut self, id: usize) -> (state: WorktreeEditorconfigState)
        requires
            old(self).wf(),
        ensures
            final(self).wf(),
            state.wf(),
            state@ == old(self)@.worktree(id),
            final(self)@ == (StoreModel {
                worktrees: old(self)@.worktrees.remove(id),
                ..old(self)@
            }),
    {
        let ghost before = *self;
        match self.worktree_editorconfig_state.remove(&id) {
            Some(state) => {
                assert(self@.worktrees =~= before@.worktrees.remove(id));
                state
            },
            None => {
                assert(self@.worktrees =~= before@.worktrees.remove(id));
                WorktreeEditorconfigState::default()
            },
        }
    }

    /// Puts in what is known of a worktree.
    fn put_state(&mut self, id: usize, state: WorktreeEditorconfigState)
        requires
            old(self).wf(),
            state.wf(),
        ensures
            final(self).wf(),
            final(self)@ == old(self)@.with_worktree(id, state@),
    {
        let ghost before = *self;
        self.worktree_editorconfig_state.insert(id, state);
        assert(self@.worktrees =~= before@.worktrees.insert(id, state@));
    }

    /// Puts in a file outside of the worktrees.
    fn put_external(&mut self, path: AbsPath, config: EditorconfigData, watched: bool)
        requires
            old(self).wf(),
        ensures
            final(self).wf(),
            final(self)@ == (StoreModel {
                external: old(self)@.external.insert(
                    path@,
                    ExternalModel { config: config@, watched },
                ),
                ..old(self)@
            }),
    {
        let ghost before = *self;
        let ghost key = path@;
        let data = ExternalEditorconfigData { config, watched };
        self.external_configs.insert(path, data);
        assert(self@.external =~= before@.external.insert(key, data@));
    }

    /// Takes out a file outside of the worktrees.
    fn take_external(&mut self, path: &AbsPath)
        requires
            old(self).wf(),
        ensures
            final(self).wf(),
            final(self)@ == (StoreModel {
                external: old(self)@.external.remove(path@),
                ..old(self)@
            }),
    {
        let ghost before = *self;
        self.external_configs.remove(path);
        assert(self@.external =~= before@.external.remove(path@));
    }

    /// Adds an event for a change to the file in a directory, where one is due.
    fn tell(
        worktree_id: WorktreeId,
        dir: &LocalSettingsPath,
        events: &mut Vec<EditorconfigEvent>,
    )
        ensures
            events_model(final(events)@) == told(
                events_model(old(events)@),
                worktree_id@,
                dir@,
            ),
    {
        let ghost before = events@;
        match dir {
            LocalSettingsPath::InWorktree(_) => {},
            LocalSettingsPath::OutsideWorktree(path) => {
                let event = EditorconfigEvent::ExternalConfigChanged {
                    worktree_id,
                    abs_path: path.clone(),
                };
                events.push(event);
                assert(events_model(events@) =~= events_model(before).push(event@));
            },
        }
    }

    /// Whether the file in a directory is there and has the given text.
    fn holds(&self, worktree_id: WorktreeId, dir: &LocalSettingsPath, content: &str) -> (held: bool)
        requires
            self.wf(),
        ensures
            held == self@.holds(worktree_id@, dir@, content@),
    {
        let id: usize = worktree_id.to_usize();
        let data = match dir {
            LocalSettingsPath::InWorktree(path) => match self.worktree_editorconfig_state.get(&id) {
                Some(state) => state.internal_configs.get(path),
                None => None,
            },
            LocalSettingsPath::OutsideWorktree(path) => match self.external_configs.get(path) {
                Some(data) => Some(&data.config),
                None => None,
            },
        };
        match data {
            Some(data) => data.content == content.to_owned(),
            None => false,
        }
    }

    /// Takes out the file in a directory.
    fn remove_config(&mut self, worktree_id: WorktreeId, dir: &LocalSettingsPath)
        requires
            old(self).wf(),
        ensures
            final(self).wf(),
            final(self)@ == old(self)@.without_config(worktree_id@, dir@),
    {
        let ghost before = *self;
        let id: usize = worktree_id.to_usize();
        match dir {
            LocalSettingsPath::InWorktree(path) => {
                if self.worktree_editorconfig_state.contains_key(&id) {
                    let mut state = self.take_state(id);
                    let ghost earlier = state@;
                    state.internal_configs.remove(path);
                    assert(state@.internal =~= earlier.internal.remove(path@));
                    self.put_state(id, state);
                    assert(self@ =~= before@.without_config(id, dir@));
                }
            },
            LocalSettingsPath::OutsideWorktree(path) => {
                self.take_external(path);
                if self.worktree_editorconfig_state.contains_key(&id) {
                    let mut state = self.take_state(id);
                    let ghost earlier = state@;
                    match state.external_config_paths {
                        Some(paths) => {
                            let mut paths = paths;
                            paths.remove(path);
                            state.external_config_paths = Some(paths);
                            assert(state@.external_paths->0 =~= earlier.external_paths->0.remove(
                                path@,
                            ));
                        },
                        None => {},
                    }
                    self.put_state(id, state);
                    assert(self@ =~= before@.without_config(id, dir@));
                }
            },
        }
    }

    /// Puts in the file in a directory.
    fn put_config(&mut self, worktree_id: WorktreeId, dir: &LocalSettingsPath, data: EditorconfigData)
        requires
            old(self).wf(),
        ensures
            final(self).wf(),
            final(self)@ == old(self)@.with_config(worktree_id@, dir@, data@),
    {
        let ghost before = *self;
        let id: usize = worktree_id.to_usize();
        match dir {
            LocalSettingsPath::InWorktree(path) => {
                let mut state = self.take_state(id);
                let ghost earlier = state@;
                state.internal_configs.insert(path.clone(), data);
                assert(state@.internal =~= earlier.internal.insert(path@, data@));
                self.put_state(id, state);
            },
            LocalSettingsPath::OutsideWorktree(path) => {
                self.put_external(path.clone(), data, false);
                let mut state = self.take_state(id);
                let ghost earlier = state@;
                let mut paths = match state.external_config_paths {
                    Some(paths) => paths,
                    None => SortedMap::new(),
                };
                let ghost known = paths@.dom();
                paths.insert(path.clone(), ());
                assert(paths@.dom() =~= known.insert(path@));
                state.external_config_paths = Some(paths);
                self.put_state(id, state);
            },
        }
        assert(self@ =~= before@.with_config(id, dir@, data@));
    }

    /// Puts in the file in a directory with a new text, given what came of reading it.
    pub fn replace_config(
        &mut self,
        worktree_id: WorktreeId,
        path: LocalSettingsPath,
        content: &str,
        read: Result<Editorconfig, EditorconfigError>,
        events: &mut Vec<EditorconfigEvent>,
    ) -> (result: Result<(), InvalidSettingsError>)
        requires
            old(self).wf(),
        ensures
            final(self).wf(),
            final(self)@ == old(self)@.with_config(
                worktree_id@,
                path@,
                ConfigModel {
                    content: content@,
                    parsed: match read {
                        Ok(editorconfig) => Some(editorconfig@),
                        Err(_) => None,
                    },
                },
            ),
            events_model(final(events)@) == told(
                events_model(old(events)@),
                worktree_id@,
                path@,
            ),
            match result {
                Ok(()) => read is Ok,
                Err(InvalidSettingsError::Editorconfig { path: file, message }) => {
                    &&& read matches Err(error)
                    &&& message@ == error.text()
                    &&& file@ == file_in(path@)
                },
            },
    {
        match read {
            Ok(editorconfig) => {
                let data = EditorconfigData::new(content.to_owned(), Some(editorconfig));
                self.put_config(worktree_id, &path, data);
                Self::tell(worktree_id, &path, events);
                Ok(())
            },
            Err(error) => {
                let data = EditorconfigData::new(content.to_owned(), None);
                self.put_config(worktree_id, &path, data);
                Self::tell(worktree_id, &path, events);
                let file = match path {
                    LocalSettingsPath::InWorktree(path) => LocalSettingsPath::InWorktree(
                        path.editorconfig_file(),
                    ),
                    LocalSettingsPath::OutsideWorktree(path) => LocalSettingsPath::OutsideWorktree(
                        path.editorconfig_file(),
                    ),
                };
                Err(InvalidSettingsError::Editorconfig { path: file, message: error.message() })
            },
        }
    }

    /// Takes note of the file in a directory: of its text, or that it is gone.
    pub fn set_config(
        &mut self,
        worktree_id: WorktreeId,
        path: LocalSettingsPath,
        content: Option<&str>,
        events: &mut Vec<EditorconfigEvent>,
    ) -> (result: Result<(), InvalidSettingsError>)
        requires
            old(self).wf(),
        ensures
            final(self).wf(),
            final(self)@ == old(self)@.reported(
                worktree_id@,
                path@,
                match content {
                    Some(content) => Some(content@),
                    None => None,
                },
            ),
            events_model(final(events)@) == told(
                events_model(old(events)@),
                worktree_id@,
                path@,
            ),
            match result {
                Ok(()) => !old(self)@.refused(
                    worktree_id@,
                    path@,
                    match content {
                        Some(content) => Some(content@),
                        None => None,
                    },
                ),
                Err(InvalidSettingsError::Editorconfig { path: file, message }) => {
                    &&& content matches Some(content)
                    &&& old(self)@.refused(worktree_id@, path@, Some(content@))
                    &&& message@ == parse_message(content@)
                    &&& file@ == file_in(path@)
                },
            },
    {
        match content {
            None => {
                self.remove_config(worktree_id, &path);
                Self::tell(worktree_id, &path, events);
                Ok(())
            },
            Some(content) => if self.holds(worktree_id, &path, content) {
                Self::tell(worktree_id, &path, events);
                Ok(())
            } else {
                let read = Editorconfig::from_str(content);
                self.replace_config(worktree_id, path, content, read, events)
            },
        }
    }

    /// The directories outside of the worktrees that count for some worktree.
    fn paths_in_use(&self) -> (paths: SortedMap<AbsPath, ()>)
        requires
            self.wf(),
        ensures
            paths.wf(),
            forall|path: AbsKey| #[trigger] paths@.contains_key(path) <==> self@.in_use(path),
    {
        let mut paths: SortedMap<AbsPath, ()> = SortedMap::new();
        let states = &self.worktree_editorconfig_state;
        let ghost mut seen: Seq<WorktreeEditorconfigState> = Seq::empty();
        let ghost all = states.values().remaining().unref();
        for state in iter: states.values()
            invariant
                self.wf(),
                states == &self.worktree_editorconfig_state,
                paths.wf(),
                iter.seq().unref() == all,
                all.to_set() == states@.values(),
                seen == all.take(iter.index() as int),
                forall|path: AbsKey| #[trigger]
                    paths@.contains_key(path) <==> exists|i: int|
                        0 <= i < seen.len() && #[trigger] counts(seen[i], path),
        {
            proof {
                assert(all[iter.index() as int] == *state);
                assert(all.to_set().contains(all[iter.index() as int]));
                assert(states@.contains_value(*state));
                assert(state.wf());
            }
            let ghost earlier = paths@;
            match &state.external_config_paths {
                Some(more) => add_paths(&mut paths, more),
                None => {},
            }
            proof {
                let now = seen.push(*state);
                assert forall|path: AbsKey| #[trigger]
                    paths@.contains_key(path) <==> exists|i: int|
                        0 <= i < now.len() && #[trigger] counts(now[i], path) by {
                    if paths@.contains_key(path) {
                        if earlier.contains_key(path) {
                            let i = choose|i: int|
                                0 <= i < seen.len() && #[trigger] counts(seen[i], path);
                            assert(counts(now[i], path));
                        } else {
                            assert(counts(now[now.len() - 1], path));
                        }
                    }
                    if exists|i: int| 0 <= i < now.len() && #[trigger] counts(now[i], path) {
                        let i = choose|i: int|
                            0 <= i < now.len() && #[trigger] counts(now[i], path);
                        if i < seen.len() {
                            assert(counts(seen[i], path));
                        }
                    }
                }
                assert(now =~= all.take(iter.index() + 1));
                seen = now;
            }
        }
        proof {
            assert(seen =~= all);
            assert forall|path: AbsKey| #[trigger]
                paths@.contains_key(path) <==> self@.in_use(path) by {
                if paths@.contains_key(path) {
                    let i = choose|i: int| 0 <= i < seen.len() && #[trigger] counts(seen[i], path);
                    assert(seen.to_set().contains(seen[i]));
                    assert(states@.contains_value(seen[i]));
                    let id = choose|id: usize| #[trigger]
                        states@.contains_key(id) && states@[id] == seen[i];
                    assert(self@.uses(id, path));
                }
                if self@.in_use(path) {
                    let id = choose|id: usize| #[trigger] self@.uses(id, path);
                    assert(states@.contains_value(states@[id]));
                    assert(seen.to_set().contains(states@[id]));
                    let i = choose|i: int| 0 <= i < seen.len() && seen[i] == states@[id];
                    assert(counts(seen[i], path));
                }
            }
        }
        paths
    }

    /// Forgets a worktree, and the files outside of the worktrees that counted for it alone.
    pub fn remove_worktree(&mut self, root_id: WorktreeId)
        requires
            old(self).wf(),
        ensures
            final(self).wf(),
            final(self)@ == old(self)@.without_worktree(root_id@),
    {
        let ghost before = self@;
        let id: usize = root_id.to_usize();
        if !self.worktree_editorconfig_state.contains_key(&id) {
            assert(before.worktrees.remove(id) =~= before.worktrees);
            assert(self@ =~= before.without_worktree(id));
            return;
        }
        let removed = self.take_state(id);
        let in_use = self.paths_in_use();
        let ghost rest = self@;
        match &removed.external_config_paths {
            None => {
                assert(self@ =~= before.without_worktree(id));
            },
            Some(paths) => {
                let mut i: usize = 0;
                proof {
                    paths.lemma_entries();
                    assert(self@.external =~= rest.external.remove_keys(
                        dropped(paths.keys().take(0), rest),
                    ));
                }
                while i < paths.len()
                    invariant
                        self.wf(),
                        paths.wf(),
                        in_use.wf(),
                        i <= paths.keys().len(),
                        forall|path: AbsKey| #[trigger]
                            in_use@.contains_key(path) <==> rest.in_use(path),
                        self@ == (StoreModel {
                            external: rest.external.remove_keys(
                                dropped(paths.keys().take(i as int), rest),
                            ),
                            ..rest
                        }),
                    decreases paths.keys().len() - i,
                {
                    let path = paths.key_at(i);
                    let ghost done = paths.keys().take(i as int);
                    let ghost now = paths.keys().take(i + 1);
                    proof {
                        assert(now =~= done.push(path@));
                        assert(forall|p: AbsKey|
                            now.contains(p) <==> done.contains(p) || p == path@) by {
                            lemma_push_members(done, path@);
                        }
                    }
                    if !in_use.contains_key(path) {
                        self.take_external(path);
                    }
                    assert(self@.external =~= rest.external.remove_keys(dropped(now, rest)));
                    i = i + 1;
                }
                proof {
                    let keys = paths.keys();
                    assert(keys.take(i as int) =~= keys);
                    paths.lemma_entries();
                    assert forall|p: AbsKey| keys.contains(p) <==> before.uses(id, p) by {
                        assert(keys.to_set().contains(p) <==> keys.contains(p));
                    }
                    assert(self@ =~= before.without_worktree(id));
                }
            },
        }
    }
}

/// Whether a directory outside of the worktrees counts for a worktree.
spec fn counts(state: WorktreeEditorconfigState, path: AbsKey) -> bool {
    state@.external_paths matches Some(paths) && paths.contains(path)
}

/// Those of some directories that count for no worktree.
spec fn dropped(paths: Seq<AbsKey>, rest: StoreModel) -> Set<AbsKey> {
    Set::new(|path: AbsKey| paths.contains(path) && !rest.in_use(path))
}

/// Adds directories to others.
fn add_paths(paths: &mut SortedMap<AbsPath, ()>, more: &SortedMap<AbsPath, ()>)
    requires
        old(paths).wf(),
        more.wf(),
    ensures
        final(paths).wf(),
        final(paths)@.dom() == old(paths)@.dom().union(more@.dom()),
{
    let ghost before = paths@.dom();
    let mut i: usize = 0;
    assert(paths@.dom() =~= before.union(more.keys().take(0).to_set()));
    while i < more.len()
        invariant
            paths.wf(),
            more.wf(),
            i <= more.keys().len(),
            paths@.dom() == before.union(more.keys().take(i as int).to_set()),
        decreases more.keys().len() - i,
    {
        let path = more.key_at(i);
        let ghost earlier = paths@.dom();
        paths.insert(path.clone(), ());
        proof {
            let done = more.keys().take(i as int);
            assert(more.keys().take(i + 1) =~= done.push(path@));
            lemma_push_members(done, path@);
            assert(paths@.dom() =~= earlier.insert(path@));
            assert(paths@.dom() =~= before.union(more.keys().take(i + 1).to_set()));
        }
        i = i + 1;
    }
    proof {
        more.lemma_entries();
        assert(more.keys().take(i as int) =~= more.keys());
    }
}

/// A file that was read says what it holds, and one that could not be read says nothing. Events
/// tell, one after the other, which worktree and which directory they are about.
pub proof fn law_store_models(
    read: Option<Editorconfig>,
    events: Seq<EditorconfigEvent>,
    i: int,
)
    requires
        0 <= i < events.len(),
    ensures
        parsed_model(read) is Some <==> read is Some,
        read matches Some(editorconfig) ==> {
            &&& parsed_model(read)->0.is_root == editorconfig.is_root
            &&& parsed_model(read)->0.sections == crate::outside::held_sections(
                editorconfig.sections,
            )
        },
        events_model(events).len() == events.len(),
        match events[i] {
            EditorconfigEvent::InternalConfigChanged { worktree_id, path } => events_model(
                events,
            )[i] == (EventModel::InternalConfigChanged {
                worktree_id: worktree_id@,
                path: path@,
            }),
            EditorconfigEvent::ExternalConfigChanged { worktree_id, abs_path } => events_model(
                events,
            )[i] == (EventModel::ExternalConfigChanged {
                worktree_id: worktree_id@,
                abs_path: abs_path@,
            }),
        },
{
}

} // verus!
