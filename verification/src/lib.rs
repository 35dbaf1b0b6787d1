//! A store of the EditorConfig files that govern a set of worktrees.
//!
//! The store is told of the configuration files in each worktree, finds those in the directories
//! above it, and answers which properties hold for a path.
pub mod config;
pub mod effects;
pub mod laws;
pub mod model;
pub mod naming;
pub mod order;
pub mod outside;
pub mod paths;
pub mod precedence;
pub mod search;
pub mod sorted_map;
pub mod store;

pub use config::{Editorconfig, EditorconfigError};
pub use paths::{
    AbsPath, LocalSettingsPath, PathComponent, PathPrefix, RelPath, WorktreeId,
    EDITORCONFIG_NAME,
};
pub use store::loading::{ChainLink, ExternalConfigWalk};
pub use store::resolve::EditorconfigProperties;
pub use store::{
    EditorconfigData, EditorconfigEvent, EditorconfigStore, InvalidSettingsError,
    WorktreeEditorconfigState,
};
