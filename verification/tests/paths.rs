use editorconfig_store::{
    AbsPath, EditorconfigStore, LocalSettingsPath, PathComponent, PathPrefix, RelPath, WorktreeId,
    EDITORCONFIG_NAME,
};
use std::path::{Component, Path};

fn abs(names: &[&str]) -> AbsPath {
    let mut components = vec![PathComponent::RootDir];
    for name in names {
        components.push(PathComponent::Normal(name.as_bytes().to_vec()));
    }
    AbsPath::from_components(components)
}

fn rel(names: &[&str]) -> RelPath {
    RelPath::from_components(names.iter().map(|name| name.to_string()).collect()).unwrap()
}

#[test]
fn parents_end_at_the_root() {
    assert_eq!(abs(&["a", "b"]).parent(), Some(abs(&["a"])));
    assert_eq!(abs(&["a"]).parent(), Some(abs(&[])));
    assert_eq!(abs(&[]).parent(), None);
    assert_eq!(AbsPath::from_components(vec![]).parent(), None);
    let prefix = AbsPath::from_components(vec![PathComponent::Prefix(PathPrefix::Disk(b'C'))]);
    assert_eq!(prefix.parent(), None);
    let relative = AbsPath::from_components(vec![PathComponent::Normal(b"a".to_vec())]);
    assert_eq!(relative.parent(), Some(AbsPath::from_components(vec![])));
    let dots = AbsPath::from_components(vec![PathComponent::CurDir, PathComponent::ParentDir]);
    assert_eq!(
        dots.parent(),
        Some(AbsPath::from_components(vec![PathComponent::CurDir]))
    );
}

/// The components that the standard library finds in a path.
fn of_std(path: &Path) -> AbsPath {
    AbsPath::from_components(
        path.components()
            .map(|component| match component {
                Component::RootDir => PathComponent::RootDir,
                Component::CurDir => PathComponent::CurDir,
                Component::ParentDir => PathComponent::ParentDir,
                Component::Normal(name) => {
                    PathComponent::Normal(name.as_encoded_bytes().to_vec())
                }
                Component::Prefix(_) => panic!("{path:?} has a prefix"),
            })
            .collect(),
    )
}

const PATHS: [&str; 14] = [
    "/", "/a", "/a/b", "/a/b/", "/a-b", "/a//b/./c", "/a/..", "", "a", "a/b", ".", "./a", "..",
    "../a",
];

#[test]
fn parents_agree_with_the_standard_library() {
    for path in PATHS.map(Path::new) {
        assert_eq!(of_std(path).parent(), path.parent().map(of_std), "{path:?}");
    }
}

#[test]
fn config_files_agree_with_the_standard_library() {
    for path in PATHS.map(Path::new) {
        let file = path.join(EDITORCONFIG_NAME);
        assert_eq!(of_std(path).editorconfig_file(), of_std(&file), "{path:?}");
    }
}

#[test]
fn order_agrees_with_the_standard_library() {
    let mut store = EditorconfigStore::default();
    let mut events = Vec::new();
    let id = WorktreeId::from_usize(1);
    for path in PATHS.map(Path::new) {
        let dir = LocalSettingsPath::OutsideWorktree(of_std(path));
        assert_eq!(store.set_config(id, dir, Some(&format!("# {path:?}\n")), &mut events), Ok(()));
    }
    let mut sorted = PATHS.map(Path::new).to_vec();
    sorted.sort();
    sorted.dedup();
    let expected: Vec<LocalSettingsPath> =
        sorted.into_iter().map(|path| LocalSettingsPath::OutsideWorktree(of_std(path))).collect();
    let listed: Vec<LocalSettingsPath> =
        store.get_configs(id).into_iter().map(|entry| entry.0).collect();
    assert_eq!(listed, expected);
}

#[test]
fn config_files_of_directories() {
    assert_eq!(abs(&["a"]).editorconfig_file(), abs(&["a", ".editorconfig"]));
    assert_eq!(rel(&["a"]).editorconfig_file(), rel(&["a", ".editorconfig"]));
    assert_eq!(RelPath::empty().editorconfig_file(), rel(&[".editorconfig"]));
}

#[test]
fn drives_have_one_spelling() {
    let path = |prefix: PathPrefix| {
        AbsPath::from_components(vec![
            PathComponent::Prefix(prefix),
            PathComponent::RootDir,
            PathComponent::Normal(b"a".to_vec()),
        ])
    };
    assert_eq!(path(PathPrefix::Disk(b'c')), path(PathPrefix::Disk(b'C')));
    assert_eq!(path(PathPrefix::VerbatimDisk(b'z')), path(PathPrefix::VerbatimDisk(b'Z')));
    assert_ne!(path(PathPrefix::Disk(b'C')), path(PathPrefix::Disk(b'D')));
    assert_ne!(path(PathPrefix::Disk(b'C')), path(PathPrefix::VerbatimDisk(b'C')));
    let share = |name: &str| PathPrefix::UNC(b"server".to_vec(), name.as_bytes().to_vec());
    assert_ne!(path(share("a")), path(share("A")));
    let drive = path(PathPrefix::Disk(b'c'));
    assert_eq!(drive.components()[0], PathComponent::Prefix(PathPrefix::Disk(b'C')));
    assert_eq!(drive.components()[2], PathComponent::Normal(b"a".to_vec()));
}

#[test]
fn config_files_behind_prefixes() {
    let file = |prefix: PathPrefix| {
        let dir = AbsPath::from_components(vec![PathComponent::Prefix(prefix)]);
        dir.editorconfig_file().components().clone()
    };
    let name = || PathComponent::Normal(b".editorconfig".to_vec());
    assert!(!PathPrefix::Disk(b'C').is_verbatim());
    assert!(PathPrefix::VerbatimDisk(b'C').is_verbatim());
    assert_eq!(
        file(PathPrefix::Disk(b'C')),
        vec![PathComponent::Prefix(PathPrefix::Disk(b'C')), name()]
    );
    assert_eq!(
        file(PathPrefix::VerbatimDisk(b'C')),
        vec![
            PathComponent::Prefix(PathPrefix::VerbatimDisk(b'C')),
            PathComponent::RootDir,
            name(),
        ]
    );
}
