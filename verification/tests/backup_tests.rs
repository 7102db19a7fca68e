use da::backup::{backup_dir, backup_path, id_of, list, prune, resolve, save_path, BackupError, KEEP};

fn names(v: &[&str]) -> Vec<String> {
    v.iter().map(|s| s.to_string()).collect()
}

#[test]
fn backup_dir_is_under_da() {
    assert_eq!(backup_dir(), ".da/backups");
    assert_eq!(backup_path("20260625-143000"), ".da/backups/20260625-143000.tar.gz");
}

#[test]
fn empty_snapshot_is_not_saved() {
    assert_eq!(save_path(0, "x"), None);
    assert_eq!(save_path(10, "x"), Some(".da/backups/x.tar.gz".to_string()));
}

#[test]
fn list_keeps_archives_newest_first() {
    let got = list(names(&[
        "20260101-000000.tar.gz",
        "notes.txt",
        "20260301-120000.tar.gz",
        "20260201-090000.tar.gz",
        "x.tar",
    ]));
    assert_eq!(
        got,
        names(&[
            ".da/backups/20260301-120000.tar.gz",
            ".da/backups/20260201-090000.tar.gz",
            ".da/backups/20260101-000000.tar.gz",
        ])
    );
    assert!(list(Vec::new()).is_empty());
}

#[test]
fn prune_deletes_all_but_the_newest() {
    let all = names(&["g", "f", "e", "d", "c", "b", "a"]);
    assert_eq!(prune(&all, KEEP), names(&["b", "a"]));
    assert!(prune(&all, 10).is_empty());
    assert_eq!(prune(&all, 0), all);
}

#[test]
fn resolve_picks_id_or_newest() {
    let all = names(&[".da/backups/2.tar.gz", ".da/backups/1.tar.gz"]);
    assert_eq!(resolve(None, &all, false).unwrap(), ".da/backups/2.tar.gz");
    assert_eq!(resolve(Some("1"), &all, true).unwrap(), ".da/backups/1.tar.gz");
    match resolve(Some("9"), &all, false) {
        Err(BackupError::NotFound(id)) => assert_eq!(id, "9"),
        other => panic!("unexpected {other:?}"),
    }
    assert!(matches!(resolve(None, &Vec::new(), false), Err(BackupError::NoBackups)));
}

#[test]
fn id_of_strips_dir_and_extension() {
    assert_eq!(id_of(".da/backups/20260625-143000.tar.gz"), "20260625-143000");
    assert_eq!(id_of("a/b.tar.gz.tar.gz"), "b");
    assert_eq!(id_of("a/b/"), "b");
    assert_eq!(id_of("a/b/."), "b");
    assert_eq!(id_of("a/.."), "");
    assert_eq!(id_of("/"), "");
    assert_eq!(id_of(""), "");
    assert_eq!(id_of("plain"), "plain");
}

#[test]
fn id_of_agrees_with_path_file_name() {
    for p in ["a/b", "a//b//", "./x.tar.gz", ".", "..", "x/./.", "/.a", "a/b/c.d"] {
        let expected = std::path::Path::new(p)
            .file_name()
            .and_then(|n| n.to_str())
            .map(|n| n.trim_end_matches(".tar.gz").to_string())
            .unwrap_or_default();
        assert_eq!(id_of(p), expected, "path {p}");
    }
}

#[test]
fn id_read_back_from_backup_path() {
    for id in ["20260625-143000", "", "a.b", "x.tar"] {
        assert_eq!(id_of(&backup_path(id)), id);
    }
    // An id that itself ends in `.tar.gz` loses that ending.
    assert_eq!(id_of(&backup_path("x.tar.gz")), "x");
}
