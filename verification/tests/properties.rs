use editorconfig_store::{
    AbsPath, EditorconfigStore, LocalSettingsPath, PathComponent, RelPath, WorktreeId,
};

fn rel(names: &[&str]) -> RelPath {
    RelPath::from_components(names.iter().map(|name| name.to_string()).collect()).unwrap()
}

fn inside(names: &[&str]) -> LocalSettingsPath {
    LocalSettingsPath::InWorktree(rel(names))
}

fn outside(names: &[&str]) -> LocalSettingsPath {
    let mut components = vec![PathComponent::RootDir];
    for name in names {
        components.push(PathComponent::Normal(name.as_bytes().to_vec()));
    }
    LocalSettingsPath::OutsideWorktree(AbsPath::from_components(components))
}

fn store_of(files: Vec<(LocalSettingsPath, &str)>) -> EditorconfigStore {
    let mut store = EditorconfigStore::default();
    let mut events = Vec::new();
    for (path, content) in files {
        let _ = store.set_config(WorktreeId::from_usize(1), path, Some(content), &mut events);
    }
    store
}

fn value(store: &EditorconfigStore, path: &[&str], key: &str) -> Option<String> {
    let properties = store.properties(WorktreeId::from_usize(1), &rel(path))?;
    Some(properties.get_raw_for_key(key).into_str().to_string())
}

fn some(text: &str) -> Option<String> {
    Some(text.to_string())
}

#[test]
fn sections_apply_by_pattern() {
    let store = store_of(vec![(
        inside(&[]),
        "[*]\nx = all\n[*.rs]\nx = rust\n[src/*.md]\nx = docs\n",
    )]);
    assert_eq!(value(&store, &["src", "main.rs"], "x"), some("rust"));
    assert_eq!(value(&store, &["src", "a.md"], "x"), some("docs"));
    assert_eq!(value(&store, &["a.md"], "x"), some("all"));
    assert_eq!(value(&store, &["a.md"], "y"), some("unset"));
}

#[test]
fn the_strongest_section_wins() {
    let store = store_of(vec![(
        inside(&[]),
        "[*]\nx = 1\ny = 1\nx = 2\n[*.rs]\ny = 3\n[*.md]\nx = 4\n",
    )]);
    assert_eq!(value(&store, &["a.rs"], "x"), some("2"));
    assert_eq!(value(&store, &["a.rs"], "y"), some("3"));
    let properties = store.properties(WorktreeId::from_usize(1), &rel(&["a.rs"])).unwrap();
    let pairs: Vec<(String, String)> =
        properties.iter().map(|(k, v)| (k.to_string(), v.to_string())).collect();
    assert_eq!(
        pairs,
        vec![("x".to_string(), "2".to_string()), ("y".to_string(), "3".to_string())]
    );
}

#[test]
fn the_nearest_file_wins() {
    let store = store_of(vec![
        (outside(&["home"]), "[*]\nx = home\ny = home\nz = home\n"),
        (outside(&["home", "u"]), "[*]\nx = user\ny = user\n"),
        (inside(&[]), "[*]\nx = root\n"),
        (inside(&["a"]), "[*]\nw = a\n"),
    ]);
    assert_eq!(value(&store, &["a", "f"], "x"), some("root"));
    assert_eq!(value(&store, &["a", "f"], "y"), some("user"));
    assert_eq!(value(&store, &["a", "f"], "z"), some("home"));
    assert_eq!(value(&store, &["a", "f"], "w"), some("a"));
    assert_eq!(value(&store, &["f"], "w"), some("unset"));
}

#[test]
fn a_root_file_hides_what_is_around_it() {
    let store = store_of(vec![
        (outside(&["home"]), "[*]\nx = home\n"),
        (inside(&[]), "[*]\ny = root\n"),
        (inside(&["a"]), "root = true\n[*]\nz = a\n"),
        (inside(&["a", "b"]), "[*]\nw = b\n"),
    ]);
    assert_eq!(value(&store, &["a", "b", "f"], "x"), some("unset"));
    assert_eq!(value(&store, &["a", "b", "f"], "y"), some("unset"));
    assert_eq!(value(&store, &["a", "b", "f"], "z"), some("a"));
    assert_eq!(value(&store, &["a", "b", "f"], "w"), some("b"));
    assert_eq!(value(&store, &["f"], "x"), some("home"));
    assert_eq!(value(&store, &["f"], "y"), some("root"));
}

#[test]
fn an_external_root_file_hides_the_files_around_it() {
    let store = store_of(vec![
        (outside(&[]), "[*]\nx = top\ny = top\n"),
        (outside(&["home"]), "root = true\n[*]\nx = home\n"),
        (outside(&["home", "u"]), "[*]\nz = user\n"),
        (inside(&[]), "[*]\nw = root\n"),
    ]);
    assert_eq!(value(&store, &["f"], "x"), some("home"));
    assert_eq!(value(&store, &["f"], "y"), some("unset"));
    assert_eq!(value(&store, &["f"], "z"), some("user"));
    assert_eq!(value(&store, &["f"], "w"), some("root"));
}

#[test]
fn an_own_root_file_hides_external_files() {
    let files = |root: &'static str| {
        store_of(vec![
            (outside(&["home"]), "[*]\nx = home\n"),
            (inside(&[]), root),
        ])
    };
    assert_eq!(value(&files("[*]\ny = 1\n"), &["f"], "x"), some("home"));
    let hidden = files("root = true\n[*]\ny = 1\n");
    assert_eq!(value(&hidden, &["f"], "x"), some("unset"));
    assert_eq!(value(&hidden, &["f"], "y"), some("1"));
    let governing =
        hidden.governing_sections(WorktreeId::from_usize(1), &rel(&["f"])).unwrap();
    assert_eq!(governing.len(), 1);
    assert_eq!(governing[0].props().get_raw_for_key("y").into_str(), "1");
}

#[test]
fn a_file_that_cannot_be_read_leaves_no_properties() {
    let store = store_of(vec![
        (outside(&["home"]), "nonsense\n"),
        (inside(&[]), "[*]\nx = root\n"),
        (inside(&["a"]), "nonsense\n"),
    ]);
    assert_eq!(value(&store, &["a", "f"], "x"), None);
    assert_eq!(value(&store, &["f"], "x"), some("root"));
    assert!(store.governing_sections(WorktreeId::from_usize(1), &rel(&["a", "f"])).is_none());
}

#[test]
fn files_behind_another_directory_are_not_consulted() {
    let store = store_of(vec![
        (inside(&[]), "[*]\nx = root\n"),
        (inside(&["a"]), "[*]\nx = a\n"),
        (inside(&["b"]), "[*]\nx = b\n"),
    ]);
    assert_eq!(value(&store, &["a", "f"], "x"), some("a"));
    assert_eq!(value(&store, &["b", "f"], "x"), some("root"));
}

#[test]
fn many_sections_are_kept_in_order() {
    let mut text = String::new();
    for n in 0..12 {
        text.push_str(&format!("[*]\nx = {}\nx{} = here\n", n, n));
    }
    let store = store_of(vec![(inside(&[]), &text)]);
    assert_eq!(value(&store, &["f"], "x"), some("11"));
    let governing =
        store.governing_sections(WorktreeId::from_usize(1), &rel(&["f"])).unwrap();
    assert_eq!(governing.len(), 12);
    for (n, section) in governing.iter().enumerate() {
        assert_eq!(section.props().get_raw_for_key("x").into_str(), n.to_string());
    }
}

#[test]
fn fallbacks_are_added() {
    let store = store_of(vec![(
        inside(&[]),
        "[*.a]\nindent_style = tab\n[*.b]\nindent_size = 4\n[*.c]\ntab_width = 2\nx = 1\n",
    )]);
    assert_eq!(value(&store, &["f.a"], "indent_size"), some("tab"));
    assert_eq!(value(&store, &["f.b"], "tab_width"), some("4"));
    assert_eq!(value(&store, &["f.c"], "indent_size"), some("2"));
    assert_eq!(value(&store, &["f.c"], "x"), some("1"));
}

#[test]
fn nothing_governs_an_unknown_worktree() {
    let store = store_of(vec![(inside(&[]), "[*]\nx = root\n")]);
    let other = WorktreeId::from_usize(2);
    assert!(store.properties(other, &rel(&["f"])).unwrap().is_empty());
    assert_eq!(store.governing_sections(other, &rel(&["f"])).unwrap().len(), 0);
}

#[test]
fn sizes_are_derived() {
    // The properties that are set, then the indent size and the tab width that follow.
    let cases = [
        ("x = 1", "unset", "unset"),
        ("indent_size = 4", "4", "4"),
        ("indent_size = 4\ntab_width = 8", "4", "8"),
        ("indent_size = tab", "tab", "unset"),
        ("indent_size = TaB\ntab_width = 8", "8", "8"),
        ("tab_width = 8", "8", "8"),
        ("tab_width = UNSET", "unset", "UNSET"),
        ("indent_size = tab\ntab_width = unset", "unset", "unset"),
        ("indent_size = unset", "unset", "unset"),
        ("indent_style = Tab", "tab", "unset"),
        ("indent_style = tab\ntab_width = 8", "8", "8"),
        ("indent_style = tab\nindent_size = 4", "4", "4"),
        ("indent_style = tab\ntab_width = unset", "tab", "unset"),
        ("indent_style = space", "unset", "unset"),
    ];
    for (text, size, width) in cases {
        let store = store_of(vec![(inside(&[]), &format!("[*]\n{text}\n"))]);
        assert_eq!(value(&store, &["f"], "indent_size"), some(size), "{text}");
        assert_eq!(value(&store, &["f"], "tab_width"), some(width), "{text}");
    }
}

#[test]
fn derived_sizes_come_last() {
    let store = store_of(vec![(inside(&[]), "[*]\nindent_size = 4\nx = 1\n")]);
    let properties = store.properties(WorktreeId::from_usize(1), &rel(&["f"])).unwrap();
    let pairs: Vec<(&str, String)> = properties.iter().map(|(k, v)| (k, v.to_string())).collect();
    assert_eq!(
        pairs,
        vec![
            ("indent_size", "4".to_string()),
            ("x", "1".to_string()),
            ("tab_width", "4".to_string()),
        ]
    );
}

#[test]
fn no_section_applies_and_nothing_is_set() {
    let store = store_of(vec![(inside(&[]), "[*.rs]\nindent_style = tab\n")]);
    let properties = store.properties(WorktreeId::from_usize(1), &rel(&["f.md"])).unwrap();
    assert!(properties.is_empty());
}
