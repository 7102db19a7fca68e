use da::daignore::{DaIgnore, CLIENT, GENERAL, SERVER};

fn root() -> String {
    "/tmp/da_ign_root".to_string()
}

#[test]
fn general_applies_to_both() {
    let ig = DaIgnore::load(&root(), Some("*.map\n"), None, None).unwrap();
    assert!(ig.client_excludes("app.js.map"));
    assert!(ig.server_protects("app.js.map"));
    assert!(!ig.client_excludes("app.js"));
}

#[test]
fn client_only_does_not_protect_server() {
    let ig = DaIgnore::load(&root(), None, Some("secret.env\n"), None).unwrap();
    assert!(ig.client_excludes("secret.env"));
    assert!(!ig.server_protects("secret.env"));
}

#[test]
fn server_only_does_not_exclude_client() {
    let ig = DaIgnore::load(&root(), None, None, Some("uploads/\n")).unwrap();
    assert!(ig.server_protects("uploads/img.png"));
    assert!(!ig.client_excludes("uploads/img.png"));
    assert!(ig.has_server_rules());
}

#[test]
fn missing_files_ignore_nothing() {
    let ig = DaIgnore::load(&root(), None, None, None).unwrap();
    assert!(!ig.client_excludes("anything"));
    assert!(!ig.server_protects("anything"));
    assert!(!ig.has_server_rules());
    assert!(ig.loaded.is_empty());
}

#[test]
fn loaded_names_present_files_in_order() {
    let ig = DaIgnore::load(".", Some(""), None, Some("x\n")).unwrap();
    assert_eq!(ig.loaded, vec![GENERAL.to_string(), SERVER.to_string()]);
    let ig = DaIgnore::load(".", None, Some("# nothing\n"), None).unwrap();
    assert_eq!(ig.loaded, vec![CLIENT.to_string()]);
}

#[test]
fn comments_blank_lines_and_whitelists_are_not_protection() {
    let ig = DaIgnore::load(".", None, None, Some("# c\n\n!keep.txt\n")).unwrap();
    assert!(!ig.has_server_rules());
    let ig = DaIgnore::load(".", Some("\u{feff}*.log\r\n"), None, None).unwrap();
    assert!(ig.has_server_rules());
    assert!(ig.client_excludes("logs/a.log"));
}

#[test]
fn later_whitelist_overrides_earlier_ignore() {
    let ig = DaIgnore::load(".", Some("*.map\n"), Some("!keep.map\n"), None).unwrap();
    assert!(ig.client_excludes("a.map"));
    assert!(!ig.client_excludes("keep.map"));
    assert!(ig.server_protects("keep.map"));
}

#[test]
fn invalid_glob_is_reported() {
    assert!(DaIgnore::load(".", None, Some("a{b\n"), None).is_err());
}

#[test]
fn rooted_paths_are_refused_before_matching() {
    let ig = DaIgnore::load(".", Some("*.map\n"), None, None).unwrap();
    assert!(!ig.client_accepts("/etc/passwd"));
    assert!(ig.client_accepts("dist/app.js"));
    let empty = DaIgnore::load(".", None, None, None).unwrap();
    assert!(empty.client_accepts("/etc/passwd"));
}

#[test]
fn paths_rooted_elsewhere_are_refused_before_matching() {
    let ig = DaIgnore::load(".", None, None, Some("x\n")).unwrap();
    for p in ["\\a", "a\\b", "C:x", "c:/x", "d/e:/f", "./\\a", ".//a", "/a"] {
        assert!(!ig.server_accepts(p), "{p}");
    }
    for p in ["ab:c", "dir/x:y", "plain", "./rel/x"] {
        assert!(ig.server_accepts(p), "{p}");
    }
}
