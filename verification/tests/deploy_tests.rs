use std::io::Read;
use da::daignore::DaIgnore;
use da::deploy::{archive_members, build_upload_plan, make_tar_gz, FileData, PackError, clean_mode, clean_result, deletions, CleanError, CleanMode, human_size, remote_path, split_protected, LocalFile, PlanError};
use da::remote::{RemoteError, Transport};
use std::cell::RefCell;

/// `.daignore` that ignores nothing.
fn empty_ignore() -> DaIgnore {
    DaIgnore::load(".", None, None, None).unwrap()
}

fn file(local: &str, rel: &str) -> LocalFile {
    LocalFile { local: local.to_string(), rel: rel.to_string() }
}

#[test]
fn plan_maps_nested_files_to_remote() {
    // A build output `da_test_plan` holding `index.html` and `sub/app.js`,
    // in the order a directory walk finds them.
    let files = vec![
        file("da_test_plan/sub/app.js", "sub/app.js"),
        file("da_test_plan/index.html", "index.html"),
    ];
    let plan = build_upload_plan(Some(files), "/var/www/app", &empty_ignore()).unwrap();
    let remotes: Vec<_> = plan.iter().map(|i| i.remote.as_str()).collect();
    assert_eq!(
        remotes,
        vec!["/var/www/app/index.html", "/var/www/app/sub/app.js"]
    );
}

#[test]
fn plan_excludes_client_ignored() {
    // Project root `da_test_plan_ignore` with `.daignore.client` = "*.map",
    // build output in its `dist` folder.
    let ig = DaIgnore::load("da_test_plan_ignore", None, Some("*.map\n"), None).unwrap();
    let files = vec![
        file("da_test_plan_ignore/dist/app.js", "app.js"),
        file("da_test_plan_ignore/dist/app.js.map", "app.js.map"),
    ];
    let plan = build_upload_plan(Some(files), "/srv", &ig).unwrap();
    let remotes: Vec<_> = plan.iter().map(|i| i.remote.as_str()).collect();
    assert_eq!(remotes, vec!["/srv/app.js"]);
}

#[test]
fn plan_errors_when_missing() {
    // The output folder `da_test_missing_xyz` does not exist.
    assert!(build_upload_plan(None, "/x", &empty_ignore()).is_err());
}

#[test]
fn plan_sorts_by_remote_and_keeps_local_paths() {
    let files = vec![
        LocalFile { local: "o/z.js".into(), rel: "z.js".into() },
        LocalFile { local: "o/a\\b.js".into(), rel: "a\\b.js".into() },
        LocalFile { local: "o/B.js".into(), rel: "B.js".into() },
    ];
    let plan = build_upload_plan(Some(files), "/srv///", &empty_ignore()).unwrap();
    let pairs: Vec<_> = plan.iter().map(|i| (i.local.as_str(), i.remote.as_str())).collect();
    assert_eq!(
        pairs,
        vec![("o/B.js", "/srv/B.js"), ("o/a\\b.js", "/srv/a/b.js"), ("o/z.js", "/srv/z.js")]
    );
}

#[test]
fn plan_refuses_rooted_relative_paths() {
    let ig = DaIgnore::load(".", Some("*.map\n"), None, None).unwrap();
    let files = vec![LocalFile { local: "x".into(), rel: "/x".into() }];
    match build_upload_plan(Some(files), "/srv", &ig) {
        Err(PlanError::OutsideRoot(p)) => assert_eq!(p, "/x"),
        other => panic!("unexpected {other:?}"),
    }
}

#[test]
fn remote_path_joins_with_one_slash() {
    assert_eq!(remote_path("/srv/", "a/b.js"), "/srv/a/b.js");
    assert_eq!(remote_path("/", "a"), "/a");
    assert_eq!(remote_path("rel", "a"), "rel/a");
}

#[derive(Default)]
struct FakeTransport {
    cleaned: RefCell<Vec<String>>,
    archives: RefCell<Vec<(usize, String)>>,
    deleted: RefCell<Vec<String>>,
    remote_files: Vec<String>,
}

impl Transport for FakeTransport {
    fn clean_remote_dir(&mut self, d: &str) -> Result<(), RemoteError> {
        self.cleaned.borrow_mut().push(d.to_string());
        Ok(())
    }
    fn upload_archive(&mut self, archive: &[u8], remote_dir: &str) -> Result<(), RemoteError> {
        self.archives
            .borrow_mut()
            .push((archive.len(), remote_dir.to_string()));
        Ok(())
    }
    fn download_archive(&mut self, _remote_dir: &str) -> Result<Vec<u8>, RemoteError> {
        Ok(Vec::new())
    }
    fn list_remote_files(&mut self, _remote_dir: &str) -> Result<Vec<String>, RemoteError> {
        Ok(self.remote_files.clone())
    }
    fn delete_remote_paths(&mut self, _remote_dir: &str, paths: &[String]) -> Result<(), RemoteError> {
        self.deleted.borrow_mut().extend(paths.iter().cloned());
        Ok(())
    }
}

/// Cleans through the transport the way the program does, with the
/// library's decisions.
fn clean_remote(t: &mut FakeTransport, remote_dir: &str, ignore: &DaIgnore) -> Result<usize, CleanError> {
    match clean_mode(remote_dir, ignore)? {
        CleanMode::Wipe => clean_result(t.clean_remote_dir(remote_dir), 0),
        CleanMode::Selective => {
            let (to_delete, protected) = deletions(t.list_remote_files(remote_dir), ignore)?;
            clean_result(t.delete_remote_paths(remote_dir, &to_delete), protected)
        }
    }
}

#[test]
fn upload_archive_sends_to_remote() {
    let mut t = FakeTransport::default();
    t.upload_archive(&[1u8, 2, 3, 4], "/srv/app").unwrap();
    assert_eq!(*t.archives.borrow(), vec![(4, "/srv/app".to_string())]);
}

#[test]
fn clean_remote_full_wipe_without_server_rules() {
    let mut t = FakeTransport::default();
    let n = clean_remote(&mut t, "/srv", &empty_ignore()).unwrap();
    assert_eq!(n, 0);
    assert_eq!(*t.cleaned.borrow(), vec!["/srv".to_string()]);
    assert!(t.deleted.borrow().is_empty());
}

#[test]
fn clean_remote_preserves_server_protected() {
    let ig = DaIgnore::load("da_test_srvprotect", None, None, Some("uploads/\n")).unwrap();

    let mut t = FakeTransport::default();
    t.remote_files = vec![
        "index.html".into(),
        "uploads/photo.png".into(),
        "old.js".into(),
    ];
    let protected = clean_remote(&mut t, "/srv", &ig).unwrap();
    assert_eq!(protected, 1);
    assert!(t.cleaned.borrow().is_empty(), "não deve usar wipe completo");
    let mut deleted = t.deleted.borrow().clone();
    deleted.sort();
    assert_eq!(deleted, vec!["index.html".to_string(), "old.js".to_string()]);
}

#[test]
fn split_protected_keeps_order_and_counts() {
    let ig = DaIgnore::load(".", Some("*.keep\n"), None, None).unwrap();
    let files = vec!["b.js".to_string(), "x.keep".to_string(), "a.js".to_string(), "d/y.keep".to_string()];
    let (del, n) = split_protected(&files, &ig).unwrap();
    assert_eq!(del, vec!["b.js".to_string(), "a.js".to_string()]);
    assert_eq!(n, 2);
}

fn float_size(bytes: usize) -> String {
    let b = bytes as f64;
    if b >= 1024.0 * 1024.0 {
        format!("{:.1} MB", b / (1024.0 * 1024.0))
    } else if b >= 1024.0 {
        format!("{:.1} KB", b / 1024.0)
    } else {
        format!("{bytes} B")
    }
}

#[test]
fn human_size_exact_values() {
    assert_eq!(human_size(0), "0 B");
    assert_eq!(human_size(512), "512 B");
    assert_eq!(human_size(1023), "1023 B");
    assert_eq!(human_size(1024), "1.0 KB");
    assert_eq!(human_size(1536), "1.5 KB");
    assert_eq!(human_size(1048575), "1024.0 KB");
    assert_eq!(human_size(1048576), "1.0 MB");
    assert_eq!(human_size(5 * 1048576 + 104858), "5.1 MB");
}

#[test]
fn human_size_matches_float_formatting() {
    let mut samples: Vec<usize> = vec![1280, 1331, 3328, 1024 * 1024 + 52428, 1024 * 1024 * 3 / 2, usize::MAX, usize::MAX - 1];
    samples.extend((0..2048usize).map(|k| 1024 + k * 37));
    samples.extend((0..200usize).map(|k| (1usize << 53) + k));
    samples.extend((0..200usize).map(|k| (1usize << 60) + (k << 7)));
    samples.extend((0..200usize).map(|k| k * 104857 + 1048576));
    for b in samples {
        assert_eq!(human_size(b), float_size(b), "bytes = {b}");
    }
}

#[test]
fn archive_keeps_walk_order_and_skips_client_ignored() {
    let ig = DaIgnore::load("proj", None, Some("*.map\n"), None).unwrap();
    let files = vec![
        file("proj/dist/b.js", "b.js"),
        file("proj/dist/a.js.map", "a.js.map"),
        file("proj/dist/sub\\c.js", "sub\\c.js"),
    ];
    let members = archive_members(Some(files), &ig).unwrap();
    let got: Vec<(&str, &str)> = members.iter().map(|m| (m.local.as_str(), m.rel.as_str())).collect();
    assert_eq!(got, vec![("proj/dist/b.js", "b.js"), ("proj/dist/sub\\c.js", "sub/c.js")]);
    assert!(matches!(archive_members(None, &ig), Err(PlanError::OutputMissing)));
}

#[test]
fn plan_keeps_walk_order_for_equal_remote_paths() {
    let files = vec![
        file("out/z.js", "z.js"),
        file("out/p\\q", "p\\q"),
        file("out/p/q", "p/q"),
    ];
    let plan = build_upload_plan(Some(files), "/srv/", &empty_ignore()).unwrap();
    let got: Vec<(&str, &str)> = plan.iter().map(|i| (i.local.as_str(), i.remote.as_str())).collect();
    assert_eq!(got, vec![("out/p\\q", "/srv/p/q"), ("out/p/q", "/srv/p/q"), ("out/z.js", "/srv/z.js")]);
}

#[test]
fn clean_remote_refuses_root_and_blank_before_any_call() {
    let ig = DaIgnore::load(".", None, None, Some("uploads/\n")).unwrap();
    for dir in ["/", "  ", " / ", ""] {
        let mut t = FakeTransport::default();
        t.remote_files = vec!["index.html".into()];
        assert!(matches!(clean_remote(&mut t, dir, &ig), Err(CleanError::Refused(_))));
        assert!(matches!(clean_remote(&mut t, dir, &empty_ignore()), Err(CleanError::Refused(_))));
        assert!(t.cleaned.borrow().is_empty());
        assert!(t.deleted.borrow().is_empty());
    }
}

#[test]
fn whitelist_only_server_rules_protect_nothing() {
    let ig = DaIgnore::load(".", None, None, Some("!keep.txt\n")).unwrap();
    assert!(!ig.has_server_rules());
    assert!(!ig.server_protects("keep.txt"));
    let mut t = FakeTransport::default();
    assert_eq!(clean_remote(&mut t, "/srv", &ig).unwrap(), 0);
    assert_eq!(*t.cleaned.borrow(), vec!["/srv".to_string()]);
}

#[test]
fn clean_decisions() {
    let rules = DaIgnore::load(".", None, None, Some("uploads/\n")).unwrap();
    assert_eq!(clean_mode("/srv", &empty_ignore()).unwrap(), CleanMode::Wipe);
    assert_eq!(clean_mode("/srv", &rules).unwrap(), CleanMode::Selective);
    let listing = Ok(vec!["a.js".to_string(), "uploads/x.png".to_string(), "b.js".to_string()]);
    let (del, n) = deletions(listing, &rules).unwrap();
    assert_eq!(del, vec!["a.js".to_string(), "b.js".to_string()]);
    assert_eq!(n, 1);
    let failed = deletions(Err(RemoteError { message: "timeout".into() }), &rules);
    assert!(matches!(failed, Err(CleanError::Remote(e)) if e.message == "timeout"));
    assert_eq!(clean_result(Ok(()), 3).unwrap(), 3);
    assert!(matches!(clean_result(Err(RemoteError { message: "x".into() }), 3), Err(CleanError::Remote(_))));
}

fn data(text: &str) -> FileData {
    FileData { data: text.as_bytes().to_vec(), mode: 0o644, uid: 1000, gid: 1000, mtime: 1_700_000_000 }
}

#[test]
fn tar_gz_roundtrips_files() {
    // A build output `da_test_tar` holding `index.html` ("hello") and
    // `sub/app.js` ("code").
    let files = vec![
        file("da_test_tar/sub/app.js", "sub/app.js"),
        file("da_test_tar/index.html", "index.html"),
    ];
    let members = archive_members(Some(files), &empty_ignore()).unwrap();
    let contents: Vec<FileData> = members
        .iter()
        .map(|m| data(if m.rel == "index.html" { "hello" } else { "code" }))
        .collect();
    let bytes = make_tar_gz(&members, &contents).unwrap();
    assert!(!bytes.is_empty());

    // Unpack and confirm both files survive with correct relative paths.
    let gz = flate2::read::GzDecoder::new(&bytes[..]);
    let mut archive = tar::Archive::new(gz);
    let mut names: Vec<String> = archive
        .entries()
        .unwrap()
        .filter_map(|e| e.ok())
        .filter(|e| e.header().entry_type().is_file())
        .map(|mut e| {
            let p = e.path().unwrap().to_string_lossy().replace("./", "");
            let mut s = String::new();
            e.read_to_string(&mut s).ok();
            p
        })
        .collect();
    names.sort();
    assert_eq!(names, vec!["index.html".to_string(), "sub/app.js".to_string()]);
}

#[test]
fn tar_gz_keeps_contents_and_metadata() {
    let members = vec![file("o/a.txt", "a.txt"), file("o/d/b.sh", "d/b.sh")];
    let mut b = data("#!/bin/sh\n");
    b.mode = 0o755;
    let bytes = make_tar_gz(&members, &vec![data("alpha"), b]).unwrap();
    let mut archive = tar::Archive::new(flate2::read::GzDecoder::new(&bytes[..]));
    let mut got = Vec::new();
    for e in archive.entries().unwrap() {
        let mut e = e.unwrap();
        let mut s = String::new();
        e.read_to_string(&mut s).unwrap();
        let h = e.header();
        got.push((e.path().unwrap().to_string_lossy().into_owned(), s, h.mode().unwrap(), h.uid().unwrap(), h.mtime().unwrap()));
    }
    assert_eq!(got, vec![
        ("a.txt".to_string(), "alpha".to_string(), 0o644, 1000, 1_700_000_000),
        ("d/b.sh".to_string(), "#!/bin/sh\n".to_string(), 0o755, 1000, 1_700_000_000),
    ]);
}

#[test]
fn tar_gz_refuses_rooted_members() {
    for rel in ["/etc/passwd", "C:x", "a\\b", "x:/y"] {
        let members = vec![file("o/f", rel)];
        assert!(matches!(make_tar_gz(&members, &vec![data("x")]), Err(PackError::Rooted(p)) if p == rel));
    }
}
