use editorconfig_store::{
    AbsPath, Editorconfig, EditorconfigEvent, EditorconfigStore, InvalidSettingsError,
    LocalSettingsPath, PathComponent, PathPrefix, RelPath, WorktreeId,
};
use std::str::FromStr;

fn abs(names: &[&str]) -> AbsPath {
    let mut components = vec![PathComponent::RootDir];
    for name in names {
        components.push(PathComponent::Normal(name.as_bytes().to_vec()));
    }
    AbsPath::from_components(components)
}

fn rel(names: &[&str]) -> RelPath {
    RelPath::from_components(names.iter().map(|name| name.to_string()).collect()).unwrap()
}

fn inside(names: &[&str]) -> LocalSettingsPath {
    LocalSettingsPath::InWorktree(rel(names))
}

fn outside(names: &[&str]) -> LocalSettingsPath {
    LocalSettingsPath::OutsideWorktree(abs(names))
}

fn id(n: usize) -> WorktreeId {
    WorktreeId::from_usize(n)
}

fn set(store: &mut EditorconfigStore, n: usize, path: LocalSettingsPath, content: &str) {
    let mut events = Vec::new();
    assert_eq!(store.set_config(id(n), path, Some(content), &mut events), Ok(()));
}

/// The directories, texts and root flags of the files that are listed for a worktree.
fn listed(store: &EditorconfigStore, n: usize) -> Vec<(LocalSettingsPath, String, Option<bool>)> {
    store
        .get_configs(id(n))
        .into_iter()
        .map(|(path, content, parsed)| (path, content.to_string(), parsed.map(|c| c.is_root)))
        .collect()
}

fn value(store: &EditorconfigStore, n: usize, path: &[&str], key: &str) -> String {
    store
        .properties(id(n), &rel(path))
        .unwrap()
        .get_raw_for_key(key)
        .into_str()
        .to_string()
}

const VALID: &str = "[*]\nx = 1\n";
const ROOT: &str = "root = true\n[*]\nx = 1\n";
const BAD_PREAMBLE: &str = "nonsense\n";
const BAD_SECTION: &str = "[*]\nx = 1\nnonsense\n";

#[test]
fn texts_are_read() {
    let plain = Editorconfig::from_str(VALID).unwrap();
    assert!(!plain.is_root);
    let root = Editorconfig::from_str(ROOT).unwrap();
    assert!(root.is_root);
    assert!(root.clone().is_root);
    assert!(!Editorconfig::from_str("").unwrap().is_root);
}

#[test]
fn texts_are_refused() {
    match Editorconfig::from_str(BAD_PREAMBLE) {
        Err(error) => assert_eq!(error.message(), "creating editorconfig parser"),
        Ok(_) => panic!("a line without a section was accepted"),
    }
    match Editorconfig::from_str(BAD_SECTION) {
        Err(error) => assert_eq!(error.message(), "parsing editorconfig sections"),
        Ok(_) => panic!("a line in a section was accepted"),
    }
}

#[test]
fn a_header_behind_a_byte_order_mark_is_refused() {
    match Editorconfig::from_str("\u{feff}[*]\nx = 1\n") {
        Err(error) => assert_eq!(error.message(), "parsing editorconfig sections"),
        Ok(_) => panic!("the header was accepted"),
    }
}

#[test]
fn a_reported_file_is_listed() {
    let mut store = EditorconfigStore::default();
    let mut events = Vec::new();
    assert_eq!(listed(&store, 1), vec![]);
    let result = store.set_config(id(1), inside(&["a"]), Some(ROOT), &mut events);
    assert_eq!(result, Ok(()));
    assert_eq!(events, vec![]);
    assert_eq!(
        listed(&store, 1),
        vec![(inside(&["a"]), ROOT.to_string(), Some(true))]
    );
    set(&mut store, 1, inside(&["a"]), VALID);
    assert_eq!(
        listed(&store, 1),
        vec![(inside(&["a"]), VALID.to_string(), Some(false))]
    );
    assert_eq!(listed(&store, 2), vec![]);
}

#[test]
fn a_reported_external_file_is_listed_and_told() {
    let mut store = EditorconfigStore::default();
    let mut events = Vec::new();
    let result = store.set_config(id(1), outside(&["home"]), Some(ROOT), &mut events);
    assert_eq!(result, Ok(()));
    let event = EditorconfigEvent::ExternalConfigChanged {
        worktree_id: id(1),
        abs_path: abs(&["home"]),
    };
    assert_eq!(events, vec![event.clone()]);
    assert_eq!(
        listed(&store, 1),
        vec![(outside(&["home"]), ROOT.to_string(), Some(true))]
    );
    assert!(!store.is_watched(&abs(&["home"])));
    let result = store.set_config(id(1), outside(&["home"]), Some(ROOT), &mut events);
    assert_eq!(result, Ok(()));
    assert_eq!(events, vec![event.clone(), event]);
}

#[test]
fn a_file_that_cannot_be_read_is_kept_and_refused() {
    let mut store = EditorconfigStore::default();
    let mut events = Vec::new();
    let result = store.set_config(id(1), inside(&["a"]), Some(BAD_PREAMBLE), &mut events);
    assert_eq!(
        result,
        Err(InvalidSettingsError::Editorconfig {
            path: inside(&["a", ".editorconfig"]),
            message: "creating editorconfig parser".to_string(),
        })
    );
    assert_eq!(
        listed(&store, 1),
        vec![(inside(&["a"]), BAD_PREAMBLE.to_string(), None)]
    );
    assert_eq!(events, vec![]);
    let result = store.set_config(id(1), outside(&["home"]), Some(BAD_SECTION), &mut events);
    assert_eq!(
        result,
        Err(InvalidSettingsError::Editorconfig {
            path: outside(&["home", ".editorconfig"]),
            message: "parsing editorconfig sections".to_string(),
        })
    );
    assert_eq!(events.len(), 1);
    assert_eq!(
        listed(&store, 1),
        vec![
            (outside(&["home"]), BAD_SECTION.to_string(), None),
            (inside(&["a"]), BAD_PREAMBLE.to_string(), None),
        ]
    );
}

#[test]
fn a_repeated_report_is_not_refused() {
    let mut store = EditorconfigStore::default();
    let mut events = Vec::new();
    for path in [inside(&[]), outside(&["home"])] {
        let again = match &path {
            LocalSettingsPath::InWorktree(p) => LocalSettingsPath::InWorktree(p.clone()),
            LocalSettingsPath::OutsideWorktree(p) => LocalSettingsPath::OutsideWorktree(p.clone()),
        };
        let first = store.set_config(id(1), path, Some(BAD_SECTION), &mut events);
        assert!(first.is_err());
        let before = listed(&store, 1);
        let second = store.set_config(id(1), again, Some(BAD_SECTION), &mut events);
        assert_eq!(second, Ok(()));
        assert_eq!(listed(&store, 1), before);
    }
}

#[test]
fn a_file_that_is_gone_is_not_listed() {
    let mut store = EditorconfigStore::default();
    let mut events = Vec::new();
    set(&mut store, 1, inside(&["a"]), VALID);
    set(&mut store, 1, outside(&["home"]), VALID);
    set(&mut store, 2, outside(&["home"]), ROOT);
    assert_eq!(store.set_config(id(1), inside(&["a"]), None, &mut events), Ok(()));
    assert_eq!(events, vec![]);
    assert_eq!(store.set_config(id(1), outside(&["home"]), None, &mut events), Ok(()));
    assert_eq!(
        events,
        vec![EditorconfigEvent::ExternalConfigChanged {
            worktree_id: id(1),
            abs_path: abs(&["home"]),
        }]
    );
    assert_eq!(listed(&store, 1), vec![]);
    assert_eq!(listed(&store, 2), vec![]);
    assert_eq!(store.set_config(id(3), inside(&["a"]), None, &mut events), Ok(()));
    assert_eq!(store.set_config(id(3), outside(&["x"]), None, &mut events), Ok(()));
    assert_eq!(events.len(), 2);
}

#[test]
fn an_external_file_is_shared() {
    let mut store = EditorconfigStore::default();
    set(&mut store, 1, outside(&["home"]), VALID);
    set(&mut store, 2, outside(&["home"]), ROOT);
    let expected = vec![(outside(&["home"]), ROOT.to_string(), Some(true))];
    assert_eq!(listed(&store, 1), expected);
    assert_eq!(listed(&store, 2), expected);
}

#[test]
fn a_known_external_text_does_not_count_for_another_worktree() {
    let mut store = EditorconfigStore::default();
    set(&mut store, 1, outside(&["home"]), VALID);
    set(&mut store, 2, outside(&["home"]), VALID);
    assert_eq!(listed(&store, 1).len(), 1);
    assert_eq!(listed(&store, 2), vec![]);
}

#[test]
fn a_report_is_local_to_its_worktree() {
    let mut store = EditorconfigStore::default();
    set(&mut store, 1, inside(&[]), VALID);
    set(&mut store, 2, inside(&[]), ROOT);
    let before = listed(&store, 2);
    set(&mut store, 1, inside(&[]), "[*]\nx = 2\n");
    assert_eq!(listed(&store, 2), before);
    assert_eq!(value(&store, 2, &["f"], "x"), "1");
    assert_eq!(value(&store, 1, &["f"], "x"), "2");
}

#[test]
fn files_are_listed_by_directory() {
    let mut store = EditorconfigStore::default();
    for names in [&["b"][..], &["a-b"], &["a", "b"], &[], &["a"], &["\u{e9}"]] {
        set(&mut store, 1, inside(names), VALID);
    }
    for names in [&["home", "u"][..], &["home"], &[], &["home", "u-v"], &["home", "u", "w"]] {
        set(&mut store, 1, outside(names), VALID);
    }
    let paths: Vec<LocalSettingsPath> =
        listed(&store, 1).into_iter().map(|entry| entry.0).collect();
    assert_eq!(
        paths,
        vec![
            outside(&[]),
            outside(&["home"]),
            outside(&["home", "u"]),
            outside(&["home", "u", "w"]),
            outside(&["home", "u-v"]),
            inside(&[]),
            inside(&["a"]),
            inside(&["a", "b"]),
            inside(&["a-b"]),
            inside(&["b"]),
            inside(&["\u{e9}"]),
        ]
    );
}

#[test]
fn components_are_ordered_by_sort() {
    let mut store = EditorconfigStore::default();
    let sorts = [
        vec![PathComponent::Normal(b"a".to_vec())],
        vec![PathComponent::ParentDir],
        vec![PathComponent::CurDir],
        vec![PathComponent::RootDir],
        vec![PathComponent::Prefix(PathPrefix::Disk(b'B'))],
        vec![PathComponent::Prefix(PathPrefix::Disk(b'A'))],
        vec![PathComponent::Prefix(PathPrefix::VerbatimDisk(b'Z'))],
        vec![PathComponent::Prefix(PathPrefix::UNC(b"b".to_vec(), b"a".to_vec()))],
        vec![PathComponent::Prefix(PathPrefix::UNC(b"a".to_vec(), b"c".to_vec()))],
        vec![PathComponent::Prefix(PathPrefix::UNC(b"a".to_vec(), b"b".to_vec()))],
        vec![PathComponent::Prefix(PathPrefix::DeviceNS(b"z".to_vec()))],
        vec![PathComponent::Prefix(PathPrefix::VerbatimUNC(b"z".to_vec(), b"z".to_vec()))],
        vec![PathComponent::Prefix(PathPrefix::Verbatim(b"z".to_vec()))],
    ];
    for components in &sorts {
        let path = AbsPath::from_components(components.clone());
        set(&mut store, 1, LocalSettingsPath::OutsideWorktree(path), VALID);
    }
    let paths: Vec<LocalSettingsPath> =
        listed(&store, 1).into_iter().map(|entry| entry.0).collect();
    let expected: Vec<LocalSettingsPath> = sorts
        .iter()
        .rev()
        .map(|c| LocalSettingsPath::OutsideWorktree(AbsPath::from_components(c.clone())))
        .collect();
    assert_eq!(paths, expected);
}

#[test]
fn removal_spares_what_other_worktrees_need() {
    let mut store = EditorconfigStore::default();
    set(&mut store, 1, outside(&["own"]), VALID);
    set(&mut store, 1, outside(&["shared"]), VALID);
    set(&mut store, 2, outside(&["shared"]), ROOT);
    set(&mut store, 1, inside(&[]), VALID);
    set(&mut store, 2, inside(&[]), VALID);
    let before = listed(&store, 2);
    let x = value(&store, 2, &["f"], "x");
    store.remove_worktree(id(1));
    assert_eq!(listed(&store, 1), vec![]);
    assert_eq!(listed(&store, 2), before);
    assert_eq!(value(&store, 2, &["f"], "x"), x);
    // The shared file is still known, so its text is no news; the other one is forgotten.
    set(&mut store, 3, outside(&["shared"]), ROOT);
    set(&mut store, 3, outside(&["own"]), VALID);
    assert_eq!(
        listed(&store, 3),
        vec![(outside(&["own"]), VALID.to_string(), Some(false))]
    );
    store.remove_worktree(id(9));
    assert_eq!(listed(&store, 2), before);
}

#[test]
fn removed_worktrees_have_no_properties() {
    let mut store = EditorconfigStore::default();
    set(&mut store, 1, inside(&[]), VALID);
    assert_eq!(value(&store, 1, &["f"], "x"), "1");
    store.remove_worktree(id(1));
    assert!(store.properties(id(1), &rel(&["f"])).unwrap().is_empty());
}

#[test]
fn paths_are_checked() {
    for name in ["", ".", "..", "a/b"] {
        assert_eq!(RelPath::from_components(vec![name.to_string()]), None);
    }
    assert_eq!(RelPath::from_components(vec![]), Some(RelPath::empty()));
    let path = rel(&["a", "b.rs"]);
    assert_eq!(path.as_unix_str(), "a/b.rs");
    assert_eq!(RelPath::empty().as_unix_str(), "");
    assert!(path.starts_with(&rel(&["a"])));
    assert!(path.starts_with(&RelPath::empty()));
    assert!(path.starts_with(&path));
    assert!(!path.starts_with(&rel(&["a", "b"])));
    assert!(!rel(&["a"]).starts_with(&path));
    assert_eq!(path.components().len(), 2);
    assert_eq!(id(7).to_usize(), 7);
}

#[test]
fn a_report_leaves_other_files_alone() {
    let mut store = EditorconfigStore::default();
    set(&mut store, 1, outside(&["home"]), ROOT);
    set(&mut store, 1, inside(&["a"]), VALID);
    set(&mut store, 1, inside(&["b"]), VALID);
    let before = listed(&store, 1);
    set(&mut store, 1, inside(&["b"]), ROOT);
    let after = listed(&store, 1);
    assert_eq!(after[..2], before[..2]);
    assert_eq!(after[2], (inside(&["b"]), ROOT.to_string(), Some(true)));
    let mut events = Vec::new();
    assert_eq!(store.set_config(id(1), outside(&["home"]), None, &mut events), Ok(()));
    assert_eq!(listed(&store, 1)[..], after[1..]);
}

#[test]
fn spellings_of_a_drive_are_one_directory() {
    let mut store = EditorconfigStore::default();
    let drive = |letter: u8| {
        LocalSettingsPath::OutsideWorktree(AbsPath::from_components(vec![
            PathComponent::Prefix(PathPrefix::Disk(letter)),
            PathComponent::RootDir,
        ]))
    };
    set(&mut store, 1, drive(b'c'), VALID);
    set(&mut store, 1, drive(b'C'), ROOT);
    assert_eq!(listed(&store, 1), vec![(drive(b'C'), ROOT.to_string(), Some(true))]);
}

#[test]
fn sections_can_be_read() {
    let config = Editorconfig::from_str("[*]\nx = 1\n[*.rs]\nx = 2\n").unwrap();
    let sections = config.sections();
    assert_eq!(sections.len(), 2);
    assert_eq!(sections[0].props().get_raw_for_key("x").into_str(), "1");
    assert_eq!(sections[1].props().get_raw_for_key("x").into_str(), "2");
    assert!(sections[1].applies_to("a.rs"));
    assert!(!sections[1].applies_to("a.md"));
}

#[test]
fn an_external_report_is_local() {
    let mut store = EditorconfigStore::default();
    set(&mut store, 1, outside(&["one"]), VALID);
    set(&mut store, 2, outside(&["two"]), VALID);
    set(&mut store, 2, inside(&[]), VALID);
    let before = listed(&store, 2);
    set(&mut store, 1, outside(&["one"]), ROOT);
    assert_eq!(listed(&store, 2), before);
    let mut events = Vec::new();
    assert_eq!(store.set_config(id(2), outside(&["one"]), None, &mut events), Ok(()));
    assert_eq!(listed(&store, 2), before);
    assert_eq!(value(&store, 2, &["f"], "x"), "1");
}

#[test]
fn reports_and_removals_commute() {
    let files = [(inside(&["a"]), VALID), (outside(&["home"]), ROOT), (inside(&["b"]), VALID)];
    let store_of = |order: [usize; 3]| {
        let mut store = EditorconfigStore::default();
        for k in order {
            let path = match &files[k].0 {
                LocalSettingsPath::InWorktree(p) => LocalSettingsPath::InWorktree(p.clone()),
                LocalSettingsPath::OutsideWorktree(p) => {
                    LocalSettingsPath::OutsideWorktree(p.clone())
                }
            };
            set(&mut store, 1, path, files[k].1);
        }
        set(&mut store, 2, outside(&["home"]), VALID);
        set(&mut store, 3, outside(&["home"]), ROOT);
        store
    };
    let mut forward = store_of([0, 1, 2]);
    let mut backward = store_of([2, 1, 0]);
    assert_eq!(listed(&forward, 1), listed(&backward, 1));
    forward.remove_worktree(id(1));
    forward.remove_worktree(id(2));
    backward.remove_worktree(id(2));
    backward.remove_worktree(id(1));
    for n in 1..4 {
        assert_eq!(listed(&forward, n), listed(&backward, n));
    }
    assert_eq!(listed(&forward, 3).len(), 1);
}
