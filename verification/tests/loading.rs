use editorconfig_store::{
    AbsPath, Editorconfig, EditorconfigData, EditorconfigEvent, EditorconfigStore,
    ExternalConfigWalk, LocalSettingsPath, PathComponent, RelPath, WorktreeId,
};
use std::str::FromStr;

const PLAIN: &str = "[*]\nx = 1\n";
const ROOT: &str = "root = true\n[*]\nx = 1\n";
const BAD: &str = "nonsense\n";

fn abs(names: &[&str]) -> AbsPath {
    let mut components = vec![PathComponent::RootDir];
    for name in names {
        components.push(PathComponent::Normal(name.as_bytes().to_vec()));
    }
    AbsPath::from_components(components)
}

fn id(n: usize) -> WorktreeId {
    WorktreeId::from_usize(n)
}

fn outside(names: &[&str]) -> LocalSettingsPath {
    LocalSettingsPath::OutsideWorktree(abs(names))
}

fn inside_root() -> LocalSettingsPath {
    LocalSettingsPath::InWorktree(RelPath::empty())
}

/// Runs a walk over some files; gives the directories that it asked for.
fn run(walk: &mut ExternalConfigWalk, files: &[(AbsPath, &str)]) -> Vec<AbsPath> {
    let mut asked = Vec::new();
    while let Some(file) = walk.next_file() {
        let text = files.iter().find(|(dir, _)| dir.editorconfig_file() == file);
        match text {
            Some((_, text)) => {
                let error = walk.file_loaded(text.to_string());
                assert_eq!(error.is_some(), *text == BAD);
            }
            None => walk.file_missing(),
        }
        asked.push(file);
    }
    asked
}

fn store_with(files: &[(AbsPath, &str)]) -> EditorconfigStore {
    let mut store = EditorconfigStore::default();
    let mut events = Vec::new();
    for (path, text) in files {
        let path = LocalSettingsPath::OutsideWorktree(path.clone());
        let _ = store.set_config(id(9), path, Some(text), &mut events);
    }
    store
}

fn external_dirs(store: &EditorconfigStore, n: usize) -> Vec<(LocalSettingsPath, String)> {
    store
        .get_configs(id(n))
        .into_iter()
        .filter(|entry| matches!(entry.0, LocalSettingsPath::OutsideWorktree(_)))
        .map(|entry| (entry.0, entry.1.to_string()))
        .collect()
}

#[test]
fn directories_are_asked_for_once_they_matter() {
    let mut store = EditorconfigStore::default();
    let mut events = Vec::new();
    assert!(!store.load_external_configs(id(1)));
    let _ = store.set_config(id(1), inside_root(), Some(PLAIN), &mut events);
    assert!(store.load_external_configs(id(1)));
    assert!(store.load_external_configs(id(1)));
    assert_eq!(store.apply_external_configs(id(1), vec![]), vec![]);
    assert!(!store.load_external_configs(id(1)));
    let _ = store.set_config(id(2), inside_root(), Some(PLAIN), &mut events);
    let _ = store.set_config(id(2), inside_root(), None, &mut events);
    assert!(!store.load_external_configs(id(2)));
    let _ = store.set_config(id(3), inside_root(), Some(PLAIN), &mut events);
    let _ = store.set_config(id(3), outside(&["home"]), Some(PLAIN), &mut events);
    assert!(!store.load_external_configs(id(3)));
}

#[test]
fn a_walk_goes_to_the_top() {
    let store = EditorconfigStore::default();
    let mut walk = store.reload_external_config_chain(&abs(&["a", "b", "w"]));
    let asked = run(&mut walk, &[(abs(&["a"]), PLAIN)]);
    assert_eq!(
        asked,
        vec![
            abs(&["a", "b", ".editorconfig"]),
            abs(&["a", ".editorconfig"]),
            abs(&[".editorconfig"]),
        ]
    );
    let chain = walk.into_chain();
    assert_eq!(chain.len(), 1);
    assert_eq!(chain[0].0, abs(&["a"]));
    assert!(chain[0].1.is_some());
}

#[test]
fn a_walk_stops_at_a_root_file() {
    let store = EditorconfigStore::default();
    let mut walk = store.reload_external_config_chain(&abs(&["a", "b", "c", "w"]));
    let asked = run(
        &mut walk,
        &[(abs(&["a", "b", "c"]), BAD), (abs(&["a", "b"]), ROOT), (abs(&["a"]), PLAIN)],
    );
    assert_eq!(
        asked,
        vec![abs(&["a", "b", "c", ".editorconfig"]), abs(&["a", "b", ".editorconfig"])]
    );
    let dirs: Vec<AbsPath> = walk.into_chain().into_iter().map(|link| link.0).collect();
    assert_eq!(dirs, vec![abs(&["a", "b", "c"]), abs(&["a", "b"])]);
}

#[test]
fn a_walk_passes_known_files() {
    let store = store_with(&[(abs(&["a", "b"]), PLAIN), (abs(&["a"]), ROOT)]);
    let mut walk = store.reload_external_config_chain(&abs(&["a", "b", "c", "w"]));
    let asked = run(&mut walk, &[(abs(&[]), PLAIN)]);
    assert_eq!(asked, vec![abs(&["a", "b", "c", ".editorconfig"])]);
    let chain = walk.into_chain();
    assert_eq!(chain.len(), 2);
    assert_eq!(chain[0].0, abs(&["a", "b"]));
    assert!(chain[0].1.is_none());
    assert_eq!(chain[1].0, abs(&["a"]));
    assert!(chain[1].1.is_none());
}

#[test]
fn a_known_file_that_cannot_be_read_is_no_root() {
    let store = store_with(&[(abs(&["a"]), BAD)]);
    let mut walk = store.reload_external_config_chain(&abs(&["a", "w"]));
    assert_eq!(run(&mut walk, &[]), vec![abs(&[".editorconfig"])]);
    assert_eq!(walk.into_chain().len(), 1);
}

#[test]
fn a_walk_from_the_top_is_over() {
    let store = EditorconfigStore::default();
    let mut walk = store.reload_external_config_chain(&abs(&[]));
    assert_eq!(walk.next_file(), None);
    walk.file_missing();
    assert_eq!(walk.next_file(), None);
    assert_eq!(walk.into_chain().len(), 0);
}

#[test]
fn a_chain_counts_for_its_worktree() {
    let mut store = store_with(&[(abs(&["a"]), ROOT)]);
    let mut events = Vec::new();
    let _ = store.set_config(id(1), inside_root(), Some(PLAIN), &mut events);
    assert!(store.load_external_configs(id(1)));
    let mut walk = store.reload_external_config_chain(&abs(&["a", "b", "w"]));
    run(&mut walk, &[(abs(&["a", "b"]), PLAIN)]);
    let watch = store.apply_external_configs(id(1), walk.into_chain());
    assert_eq!(watch, vec![abs(&["a", "b"])]);
    assert!(store.is_watched(&abs(&["a", "b"])));
    assert!(!store.is_watched(&abs(&["a"])));
    assert!(!store.is_watched(&abs(&[])));
    assert_eq!(
        external_dirs(&store, 1),
        vec![
            (outside(&["a"]), ROOT.to_string()),
            (outside(&["a", "b"]), PLAIN.to_string()),
        ]
    );
    // A new report replaces the watched file.
    let _ = store.set_config(id(1), outside(&["a", "b"]), Some(ROOT), &mut events);
    assert!(!store.is_watched(&abs(&["a", "b"])));
}

#[test]
fn a_chain_keeps_what_was_known() {
    let mut store = store_with(&[(abs(&["a"]), ROOT)]);
    let read = Editorconfig::from_str(PLAIN).unwrap();
    let chain = vec![
        (abs(&["a"]), Some(EditorconfigData::new(PLAIN.to_string(), Some(read)))),
        (abs(&["b"]), None),
        (abs(&["b"]), Some(EditorconfigData::new(PLAIN.to_string(), None))),
    ];
    assert_eq!(store.apply_external_configs(id(1), chain), vec![abs(&["b"])]);
    assert_eq!(
        external_dirs(&store, 1),
        vec![(outside(&["a"]), ROOT.to_string()), (outside(&["b"]), String::new())]
    );
}

#[test]
fn a_watched_file_is_followed() {
    let mut store = EditorconfigStore::default();
    let mut events = Vec::new();
    let chain = vec![(abs(&["a"]), Some(EditorconfigData::new(PLAIN.to_string(), None)))];
    store.apply_external_configs(id(1), chain);
    let roots = |store: &EditorconfigStore| -> Vec<(String, Option<bool>)> {
        store
            .get_configs(id(1))
            .into_iter()
            .map(|(_, text, parsed)| (text.to_string(), parsed.map(|c| c.is_root)))
            .collect()
    };
    assert_eq!(roots(&store), vec![(PLAIN.to_string(), None)]);
    let event = EditorconfigEvent::ExternalConfigChanged {
        worktree_id: id(1),
        abs_path: abs(&["a"]),
    };
    let error = store.watched_config_changed(id(1), abs(&["a"]), ROOT.to_string(), &mut events);
    assert!(error.is_none());
    assert_eq!(roots(&store), vec![(ROOT.to_string(), Some(true))]);
    assert!(store.is_watched(&abs(&["a"])));
    let error = store.watched_config_changed(id(1), abs(&["a"]), BAD.to_string(), &mut events);
    assert_eq!(error.unwrap().message(), "creating editorconfig parser");
    assert_eq!(roots(&store), vec![(BAD.to_string(), None)]);
    let error = store.watched_config_changed(id(1), abs(&["a"]), String::new(), &mut events);
    assert!(error.is_none());
    assert_eq!(roots(&store), vec![(String::new(), None)]);
    assert_eq!(events, vec![event.clone(), event.clone(), event]);
}

#[test]
fn an_unknown_file_is_told_but_not_kept() {
    let mut store = EditorconfigStore::default();
    let mut events = Vec::new();
    let error = store.watched_config_changed(id(1), abs(&["a"]), ROOT.to_string(), &mut events);
    assert!(error.is_none());
    assert_eq!(events.len(), 1);
    assert_eq!(store.get_configs(id(1)).len(), 0);
    assert!(!store.is_watched(&abs(&["a"])));
}

#[test]
fn a_chain_replaces_what_counted() {
    let mut store = EditorconfigStore::default();
    let mut events = Vec::new();
    let _ = store.set_config(id(1), outside(&["x"]), Some(PLAIN), &mut events);
    let chain = vec![(abs(&["a"]), Some(EditorconfigData::new(ROOT.to_string(), None)))];
    assert_eq!(store.apply_external_configs(id(1), chain), vec![abs(&["a"])]);
    assert_eq!(external_dirs(&store, 1), vec![(outside(&["a"]), ROOT.to_string())]);
    // The earlier file is known still, though it counts for no worktree.
    let mut walk = store.reload_external_config_chain(&abs(&["x", "w"]));
    assert_eq!(walk.next_file(), Some(abs(&[".editorconfig"])));
    assert_eq!(walk.into_chain()[0].0, abs(&["x"]));
}

#[test]
fn known_directories_are_not_asked_for_again() {
    let mut store = EditorconfigStore::default();
    let mut events = Vec::new();
    let _ = store.set_config(id(1), inside_root(), Some(PLAIN), &mut events);
    assert!(store.load_external_configs(id(1)));
    let chain = vec![(abs(&["a"]), Some(EditorconfigData::new(PLAIN.to_string(), None)))];
    store.apply_external_configs(id(1), chain);
    let _ = store.set_config(id(1), outside(&["a"]), None, &mut events);
    assert!(!store.load_external_configs(id(1)));
    let _ = store.set_config(id(1), inside_root(), None, &mut events);
    let _ = store.set_config(id(1), inside_root(), Some(ROOT), &mut events);
    assert!(!store.load_external_configs(id(1)));
    store.remove_worktree(id(1));
    let _ = store.set_config(id(1), inside_root(), Some(PLAIN), &mut events);
    assert!(store.load_external_configs(id(1)));
}

#[test]
fn loading_and_watching_are_local() {
    let mut store = EditorconfigStore::default();
    let mut events = Vec::new();
    let _ = store.set_config(id(2), outside(&["b"]), Some(PLAIN), &mut events);
    let before = external_dirs(&store, 2);
    let chain = vec![
        (abs(&["b"]), None),
        (abs(&["a"]), Some(EditorconfigData::new(PLAIN.to_string(), None))),
    ];
    store.apply_external_configs(id(1), chain);
    assert_eq!(external_dirs(&store, 2), before);
    store.watched_config_changed(id(1), abs(&["a"]), ROOT.to_string(), &mut events);
    assert_eq!(external_dirs(&store, 2), before);
}
