//! What the store holds and how each operation changes it, as mathematics.
use vstd::prelude::*;

use crate::config::{parsed, EditorconfigModel};
use crate::outside::{glob_matches, overlaid, Pairs, SectionModel};
use crate::paths::{
    editorconfig_in, parent_of, AbsPath, ComponentModel, LocalPathModel, RelPath,
    EDITORCONFIG_NAME,
};
use crate::sorted_map::in_order;

verus! {

/// A path of the file system.
pub type AbsKey = Seq<ComponentModel>;

/// A path in a worktree.
pub type RelKey = Seq<Seq<char>>;

/// A configuration file: its text, and what it says where it could be read.
pub struct ConfigModel {
    pub content: Seq<char>,
    pub parsed: Option<EditorconfigModel>,
}

/// A configuration file outside of every worktree.
pub struct ExternalModel {
    pub config: ConfigModel,
    pub watched: bool,
}

/// What is known of a worktree.
#[verifier::ext_equal]
pub struct WorktreeModel {
    /// The configuration files in the worktree, by their directory.
    pub internal: Map<RelKey, ConfigModel>,
    /// The directories above the worktree whose configuration files count for it.
    pub external_paths: Option<Set<AbsKey>>,
    /// Whether the directories above the worktree have been asked for.
    pub loading: bool,
}

/// The whole store.
#[verifier::ext_equal]
pub struct StoreModel {
    /// The configuration files outside of the worktrees, by their directory.
    pub external: Map<AbsKey, ExternalModel>,
    pub worktrees: Map<usize, WorktreeModel>,
}

/// What an event tells.
pub enum EventModel {
    InternalConfigChanged { worktree_id: usize, path: RelKey },
    ExternalConfigChanged { worktree_id: usize, abs_path: AbsKey },
}

/// A configuration file that is not there.
pub open spec fn no_config() -> ConfigModel {
    ConfigModel { content: Seq::empty(), parsed: None }
}

/// A worktree of which nothing is known.
pub open spec fn no_worktree() -> WorktreeModel {
    WorktreeModel { internal: Map::empty(), external_paths: None, loading: false }
}

/// The path of the EditorConfig file in a directory.
pub open spec fn file_in(dir: LocalPathModel) -> LocalPathModel {
    match dir {
        LocalPathModel::InWorktree(path) => LocalPathModel::InWorktree(
            path.push(EDITORCONFIG_NAME@),
        ),
        LocalPathModel::OutsideWorktree(path) => LocalPathModel::OutsideWorktree(
            editorconfig_in(path),
        ),
    }
}

/// The events after a change to the file in `dir`: one is told for a file outside of the
/// worktrees.
pub open spec fn told(events: Seq<EventModel>, id: usize, dir: LocalPathModel) -> Seq<EventModel> {
    match dir {
        LocalPathModel::InWorktree(_) => events,
        LocalPathModel::OutsideWorktree(path) => events.push(
            EventModel::ExternalConfigChanged { worktree_id: id, abs_path: path },
        ),
    }
}

impl StoreModel {
    pub open spec fn empty() -> StoreModel {
        StoreModel { external: Map::empty(), worktrees: Map::empty() }
    }

    /// What is known of a worktree.
    pub open spec fn worktree(self, id: usize) -> WorktreeModel {
        if self.worktrees.contains_key(id) {
            self.worktrees[id]
        } else {
            no_worktree()
        }
    }

    pub open spec fn with_worktree(self, id: usize, worktree: WorktreeModel) -> StoreModel {
        StoreModel { worktrees: self.worktrees.insert(id, worktree), ..self }
    }

    /// The configuration file that stands under a directory.
    pub open spec fn config_at(self, id: usize, dir: LocalPathModel) -> Option<ConfigModel> {
        match dir {
            LocalPathModel::InWorktree(path) => self.worktree(id).internal.get(path),
            LocalPathModel::OutsideWorktree(path) => if self.external.contains_key(path) {
                Some(self.external[path].config)
            } else {
                None
            },
        }
    }

    /// Whether the file under a directory is there and has the given text.
    pub open spec fn holds(self, id: usize, dir: LocalPathModel, content: Seq<char>) -> bool {
        self.config_at(id, dir) matches Some(config) && config.content == content
    }

    /// The store without the file under a directory. A file outside of the worktrees is gone
    /// for all of them, and no longer counts for the worktree that is named.
    pub open spec fn without_config(self, id: usize, dir: LocalPathModel) -> StoreModel {
        match dir {
            LocalPathModel::InWorktree(path) => if self.worktrees.contains_key(id) {
                let old = self.worktrees[id];
                self.with_worktree(
                    id,
                    WorktreeModel { internal: old.internal.remove(path), ..old },
                )
            } else {
                self
            },
            LocalPathModel::OutsideWorktree(path) => {
                let rest = StoreModel { external: self.external.remove(path), ..self };
                if self.worktrees.contains_key(id) {
                    let old = self.worktrees[id];
                    let external_paths = match old.external_paths {
                        Some(paths) => Some(paths.remove(path)),
                        None => None,
                    };
                    rest.with_worktree(id, WorktreeModel { external_paths, ..old })
                } else {
                    rest
                }
            },
        }
    }

    /// The store with the file under a directory. A file outside of the worktrees is there for
    /// all of them, is not watched, and counts for the worktree that is named.
    pub open spec fn with_config(
        self,
        id: usize,
        dir: LocalPathModel,
        config: ConfigModel,
    ) -> StoreModel {
        let old = self.worktree(id);
        match dir {
            LocalPathModel::InWorktree(path) => self.with_worktree(
                id,
                WorktreeModel { internal: old.internal.insert(path, config), ..old },
            ),
            LocalPathModel::OutsideWorktree(path) => {
                let paths = match old.external_paths {
                    Some(paths) => paths,
                    None => Set::empty(),
                };
                StoreModel {
                    external: self.external.insert(path, ExternalModel { config, watched: false }),
                    ..self
                }.with_worktree(
                    id,
                    WorktreeModel { external_paths: Some(paths.insert(path)), ..old },
                )
            },
        }
    }

    /// The store after the file under a directory was reported: gone, or with a text.
    pub open spec fn reported(
        self,
        id: usize,
        dir: LocalPathModel,
        content: Option<Seq<char>>,
    ) -> StoreModel {
        match content {
            None => self.without_config(id, dir),
            Some(content) => if self.holds(id, dir, content) {
                self
            } else {
                self.with_config(id, dir, ConfigModel { content, parsed: parsed(content) })
            },
        }
    }

    /// Whether reporting the file is answered with an error: its text is new and cannot be read.
    pub open spec fn refused(
        self,
        id: usize,
        dir: LocalPathModel,
        content: Option<Seq<char>>,
    ) -> bool {
        content matches Some(content) && !self.holds(id, dir, content) && parsed(content) is None
    }

    /// Whether a directory outside of the worktrees counts for some worktree.
    pub open spec fn in_use(self, path: AbsKey) -> bool {
        exists|id: usize| #[trigger] self.uses(id, path)
    }

    /// Whether a directory outside of the worktrees counts for a worktree.
    pub open spec fn uses(self, id: usize, path: AbsKey) -> bool {
        &&& self.worktrees.contains_key(id)
        &&& self.worktrees[id].external_paths matches Some(paths)
        &&& paths.contains(path)
    }

    /// The store without a worktree, and without the files outside of the worktrees that
    /// counted for no other.
    pub open spec fn without_worktree(self, id: usize) -> StoreModel {
        let rest = StoreModel { worktrees: self.worktrees.remove(id), ..self };
        StoreModel {
            external: self.external.remove_keys(
                Set::new(|path: AbsKey| self.uses(id, path) && !rest.in_use(path)),
            ),
            ..rest
        }
    }

    /// The files outside of the worktrees that count for a worktree, in the order of their
    /// directories.
    pub open spec fn external_list(self, id: usize) -> Seq<(AbsKey, ConfigModel)> {
        in_order::<AbsPath>(
            Set::new(|path: AbsKey| self.uses(id, path) && self.external.contains_key(path)),
        ).map_values(|path: AbsKey| (path, self.external[path].config))
    }

    /// The files in a worktree, in the order of their directories.
    pub open spec fn internal_list(self, id: usize) -> Seq<(RelKey, ConfigModel)> {
        in_order::<RelPath>(self.worktree(id).internal.dom()).map_values(
            |path: RelKey| (path, self.worktree(id).internal[path]),
        )
    }

    /// All files that count for a worktree: those outside come first.
    pub open spec fn list(self, id: usize) -> Seq<(LocalPathModel, ConfigModel)> {
        self.external_list(id).map_values(
            |entry: (AbsKey, ConfigModel)| (LocalPathModel::OutsideWorktree(entry.0), entry.1),
        ) + self.internal_list(id).map_values(
            |entry: (RelKey, ConfigModel)| (LocalPathModel::InWorktree(entry.0), entry.1),
        )
    }

    /// Whether the file in the worktree's own root directory is a root file.
    pub open spec fn is_own_root(self, id: usize) -> bool {
        &&& self.worktree(id).internal.get(Seq::empty()) matches Some(config)
        &&& config.parsed matches Some(editorconfig)
        &&& editorconfig.is_root
    }

    /// The files of a worktree that are consulted for a path: those in directories that lead
    /// to it, up to the first directory that does not.
    pub open spec fn consulted(self, id: usize, path: RelKey) -> Seq<(RelKey, ConfigModel)> {
        self.internal_list(id).take(leading(self.internal_list(id), path) as int)
    }

    /// The sections that govern a path, from the weakest to the strongest. There are none to
    /// go by where a file that is consulted could not be read.
    pub open spec fn governing(self, id: usize, path: RelKey) -> Option<Seq<SectionModel>> {
        let outer = if self.is_own_root(id) {
            Seq::empty()
        } else {
            stacked(Seq::empty(), configs_of(self.external_list(id)))
        };
        let consulted = configs_of(self.consulted(id, path));
        if exists|i: int| 0 <= i < consulted.len() && (#[trigger] consulted[i]).parsed is None {
            None
        } else {
            Some(stacked(outer, consulted))
        }
    }

    /// Whether the directories above a worktree are still to be asked for.
    pub open spec fn wants_external(self, id: usize) -> bool {
        &&& self.worktrees.contains_key(id)
        &&& self.worktrees[id].external_paths is None
        &&& !self.worktrees[id].internal.is_empty()
    }

    /// The store after the directories above a worktree were asked for.
    pub open spec fn asked(self, id: usize) -> StoreModel {
        self.with_worktree(id, WorktreeModel { loading: true, ..self.worktree(id) })
    }

    /// The store after the directories above a worktree became known. A file that was known
    /// before stays as it is; one that was not is watched from now on.
    pub open spec fn with_chain(
        self,
        id: usize,
        chain: Seq<(AbsKey, Option<ConfigModel>)>,
    ) -> StoreModel {
        StoreModel { external: chained(self.external, chain), ..self }.with_worktree(
            id,
            WorktreeModel {
                external_paths: Some(
                    chain.map_values(|link: (AbsKey, Option<ConfigModel>)| link.0).to_set(),
                ),
                ..self.worktree(id)
            },
        )
    }

    /// The store after a watched file changed. One that is no longer known is left alone.
    pub open spec fn with_watched(self, path: AbsKey, config: ConfigModel) -> StoreModel {
        if self.external.contains_key(path) {
            StoreModel {
                external: self.external.insert(
                    path,
                    ExternalModel { config, watched: self.external[path].watched },
                ),
                ..self
            }
        } else {
            self
        }
    }

    /// For each known file outside of the worktrees, whether it is a root file.
    pub open spec fn known_roots(self) -> Map<AbsKey, bool> {
        self.external.map_values(|data: ExternalModel| is_root(data.config.parsed))
    }
}

pub open spec fn is_root(config: Option<EditorconfigModel>) -> bool {
    config matches Some(editorconfig) && editorconfig.is_root
}

/// The files of a list.
pub open spec fn configs_of<K>(list: Seq<(K, ConfigModel)>) -> Seq<ConfigModel> {
    list.map_values(|entry: (K, ConfigModel)| entry.1)
}

/// How many files at the start of a list are in directories that lead to a path.
pub open spec fn leading(list: Seq<(RelKey, ConfigModel)>, path: RelKey) -> nat
    decreases list.len(),
{
    if list.len() == 0 || !list[0].0.is_prefix_of(path) {
        0
    } else {
        1 + leading(list.drop_first(), path)
    }
}

/// The sections of files laid on top of others, the later on top of the earlier. A root file
/// hides all that is below it, and a file that could not be read has no sections.
pub open spec fn stacked(below: Seq<SectionModel>, configs: Seq<ConfigModel>) -> Seq<SectionModel>
    decreases configs.len(),
{
    if configs.len() == 0 {
        below
    } else {
        match configs.last().parsed {
            None => stacked(below, configs.drop_last()),
            Some(editorconfig) => if editorconfig.is_root {
                editorconfig.sections
            } else {
                stacked(below, configs.drop_last()) + editorconfig.sections
            },
        }
    }
}

/// The properties that sections set for a path, given its text.
pub open spec fn applied(sections: Seq<SectionModel>, path: Seq<char>) -> Pairs
    decreases sections.len(),
{
    if sections.len() == 0 {
        Seq::empty()
    } else {
        let earlier = applied(sections.drop_last(), path);
        if glob_matches(sections.last().0, path) {
            overlaid(earlier, sections.last().1)
        } else {
            earlier
        }
    }
}

/// The known files after a chain was added: those that were not known are watched.
pub open spec fn chained(
    external: Map<AbsKey, ExternalModel>,
    chain: Seq<(AbsKey, Option<ConfigModel>)>,
) -> Map<AbsKey, ExternalModel>
    decreases chain.len(),
{
    if chain.len() == 0 {
        external
    } else {
        let earlier = chained(external, chain.drop_last());
        let (path, config) = chain.last();
        if earlier.contains_key(path) {
            earlier
        } else {
            earlier.insert(
                path,
                ExternalModel {
                    config: match config {
                        Some(config) => config,
                        None => no_config(),
                    },
                    watched: true,
                },
            )
        }
    }
}

/// The directories whose files are watched once a chain was added, in the order of the chain.
pub open spec fn newly_watched(
    external: Map<AbsKey, ExternalModel>,
    chain: Seq<(AbsKey, Option<ConfigModel>)>,
) -> Seq<AbsKey>
    decreases chain.len(),
{
    if chain.len() == 0 {
        Seq::empty()
    } else {
        let earlier = newly_watched(external, chain.drop_last());
        if chained(external, chain.drop_last()).contains_key(chain.last().0) {
            earlier
        } else {
            earlier.push(chain.last().0)
        }
    }
}

/// What a walk up the directories above a worktree has seen, and where it stands.
#[verifier::ext_equal]
pub struct WalkModel {
    /// The files that were known when the walk began: whether each is a root file.
    pub known: Map<AbsKey, bool>,
    /// The directory that is to be looked at; `None` once the walk is over.
    pub current: Option<AbsKey>,
    /// The directories with a file, from the worktree outwards; with the file, where it was
    /// not known before.
    pub found: Seq<(AbsKey, Option<ConfigModel>)>,
}

impl WalkModel {
    /// The walk that starts above a worktree.
    pub open spec fn start(known: Map<AbsKey, bool>, worktree_path: AbsKey) -> WalkModel {
        WalkModel { known, current: parent_of(worktree_path), found: Seq::empty() }
    }

    /// The walk after its directory turned out to have a file.
    pub open spec fn with_found(self, config: Option<ConfigModel>, is_root: bool) -> WalkModel {
        match self.current {
            None => self,
            Some(dir) => WalkModel {
                current: if is_root {
                    None
                } else {
                    parent_of(dir)
                },
                found: self.found.push((dir, config)),
                ..self
            },
        }
    }

    /// The walk after its directory turned out to have no file.
    pub open spec fn with_nothing(self) -> WalkModel {
        match self.current {
            None => self,
            Some(dir) => WalkModel { current: parent_of(dir), ..self },
        }
    }

    /// The walk after it has passed the directories whose files were known before.
    pub open spec fn past_known(self) -> WalkModel
        decreases
                (match self.current {
                    None => 0,
                    Some(dir) => dir.len() + 1,
                }),
    {
        match self.current {
            None => self,
            Some(dir) => if self.known.contains_key(dir) {
                self.with_found(None, self.known[dir]).past_known()
            } else {
                self
            },
        }
    }

    /// What the walk will have found in the end, given the texts of the files by their paths.
    pub open spec fn outcome(self, files: Map<AbsKey, Seq<char>>) -> Seq<
        (AbsKey, Option<ConfigModel>),
    > {
        self.found + chain(self.known, self.current, files)
    }
}

/// The directories with a file from `dir` outwards, up to the first root file.
pub open spec fn chain(
    known: Map<AbsKey, bool>,
    dir: Option<AbsKey>,
    files: Map<AbsKey, Seq<char>>,
) -> Seq<(AbsKey, Option<ConfigModel>)>
    decreases
            (match dir {
                None => 0,
                Some(dir) => dir.len() + 1,
            }),
{
    match dir {
        None => Seq::empty(),
        Some(dir) => {
            let outer = chain(known, parent_of(dir), files);
            if known.contains_key(dir) {
                seq![(dir, None)] + if known[dir] {
                    Seq::empty()
                } else {
                    outer
                }
            } else if files.contains_key(editorconfig_in(dir)) {
                let content = files[editorconfig_in(dir)];
                seq![(dir, Some(ConfigModel { content, parsed: parsed(content) }))] + if is_root(
                    parsed(content),
                ) {
                    Seq::empty()
                } else {
                    outer
                }
            } else {
                outer
            }
        },
    }
}

} // verus!
