use da::init::gitignore_update;

#[test]
fn adds_entry_to_missing_gitignore() {
    assert_eq!(gitignore_update(""), Some(".da/\n".to_string()));
}

#[test]
fn adds_newline_before_entry_when_needed() {
    assert_eq!(gitignore_update("target"), Some("target\n.da/\n".to_string()));
    assert_eq!(gitignore_update("target\n"), Some("target\n.da/\n".to_string()));
}

#[test]
fn keeps_gitignore_that_already_lists_da() {
    assert_eq!(gitignore_update("node_modules\n  .da/  \r\n"), None);
    assert_eq!(gitignore_update(".da/"), None);
}

#[test]
fn other_spellings_are_not_the_entry() {
    assert_eq!(gitignore_update(".da\n"), Some(".da\n.da/\n".to_string()));
    assert_eq!(gitignore_update("# .da/\n"), Some("# .da/\n.da/\n".to_string()));
}

#[test]
fn second_update_changes_nothing() {
    for s in ["", "a", "a\r\n", "x\ny"] {
        let once = gitignore_update(s).unwrap();
        assert_eq!(gitignore_update(&once), None);
    }
}
