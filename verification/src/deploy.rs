//! What a deploy sends and what it deletes: the upload plan of a build, and
//! the cleaning of the remote directory that respects `.daignore.server`.

use vstd::prelude::*;
use crate::daignore::{foreign_rooted, gitignore_ignores, ignore_count, gitignore_build, is_foreign_rooted, DaIgnore};
use crate::order::{key_of, lemma_stable_sort_multiset, lemma_stable_sort_views, sort_by_key, sorted_by_key, stable_sort, views, Keyed};
use crate::remote::{remote_dir_verdict, validate_remote_dir, RemoteDirError, RemoteError};
use crate::text::{chars_of, push_str, string_of, trim_end_char_spec};
pub use crate::size::human_size;

verus! {

/// One file to upload: local source and its remote destination path.
#[derive(Debug, PartialEq)]
pub struct UploadItem {
    /// Where the file is on this machine.
    pub local: String,
    /// Where it goes on the remote host.
    pub remote: String,
}

impl View for UploadItem {
    type V = (Seq<char>, Seq<char>);

    open spec fn view(&self) -> (Seq<char>, Seq<char>) {
        (self.local@, self.remote@)
    }
}

impl Keyed for UploadItem {
    open spec fn key(&self) -> Seq<char> {
        self.remote@
    }

    fn key_chars(&self) -> (v: Vec<char>) {
        chars_of(self.remote.as_str())
    }
}

/// A file found under the build output directory.
#[derive(Debug)]
pub struct LocalFile {
    /// Its path on this machine.
    pub local: String,
    /// Its path relative to the output directory, as the platform writes it.
    pub rel: String,
}

/// `s` with each `\` turned into `/`.
pub open spec fn slashes(s: Seq<char>) -> Seq<char> {
    s.map_values(|c: char| if c == '\\' { '/' } else { c })
}

/// The remote path of the file `rel` under `remote_dir`: the directory
/// without trailing `/`, a `/`, then `rel`.
pub open spec fn remote_path_spec(remote_dir: Seq<char>, rel: Seq<char>) -> Seq<char> {
    trim_end_char_spec(remote_dir, '/') + seq!['/'] + rel
}

/// The items planned for `files`, in their order: the files the client rules
/// do not exclude, each with its remote path.
pub open spec fn planned(
    files: Seq<LocalFile>,
    remote_dir: Seq<char>,
    root: Seq<char>,
    rules: Seq<Seq<char>>,
) -> Seq<(Seq<char>, Seq<char>)>
    decreases files.len(),
{
    if files.len() == 0 {
        seq![]
    } else {
        let rest = planned(files.drop_last(), remote_dir, root, rules);
        let f = files.last();
        let rel = slashes(f.rel@);
        if gitignore_ignores(root, rules, rel) {
            rest
        } else {
            rest.push((f.local@, remote_path_spec(remote_dir, rel)))
        }
    }
}

/// Why no upload plan could be made.
#[derive(Debug)]
pub enum PlanError {
    /// The build output directory does not exist.
    OutputMissing,
    /// A file path the ignore rules cannot test (it is not under their root).
    OutsideRoot(String),
}

fn to_slashes(s: &str) -> (r: String)
    ensures
        r@ == slashes(s@),
{
    let v = chars_of(s);
    let mut w: Vec<char> = Vec::new();
    let mut i: usize = 0;
    while i < v.len()
        invariant
            i <= v.len(),
            w@ == slashes(v@.subrange(0, i as int)),
        decreases v.len() - i,
    {
        let c = v[i];
        w.push(if c == '\\' { '/' } else { c });
        i = i + 1;
        assert(w@ =~= slashes(v@.subrange(0, i as int)));
    }
    assert(v@.subrange(0, v.len() as int) =~= v@);
    string_of(&w)
}

/// The remote path of `rel` under `remote_dir`.
pub fn remote_path(remote_dir: &str, rel: &str) -> (r: String)
    ensures
        r@ == remote_path_spec(remote_dir@, rel@),
{
    let v = chars_of(remote_dir);
    let mut end: usize = v.len();
    assert(v@.subrange(0, v.len() as int) =~= v@);
    while end > 0 && v[end - 1] == '/'
        invariant
            end <= v.len(),
            trim_end_char_spec(remote_dir@, '/') == trim_end_char_spec(v@.subrange(0, end as int), '/'),
            v@ == remote_dir@,
        decreases end,
    {
        assert(v@.subrange(0, end as int).drop_last() =~= v@.subrange(0, end - 1));
        end = end - 1;
    }
    proof {
        let t = v@.subrange(0, end as int);
        if end > 0 {
            assert(t.last() == v@[end - 1]);
        }
    }
    let mut r = crate::text::string_from_range(&v, 0, end);
    crate::text::push_char(&mut r, '/');
    push_str(&mut r, rel);
    r
}

/// Every file of `files`, in order, with its remote path: what is planned
/// when the client rules hold no ignore glob.
pub open spec fn planned_all(files: Seq<LocalFile>, remote_dir: Seq<char>) -> Seq<(Seq<char>, Seq<char>)> {
    files.map_values(|f: LocalFile| (f.local@, remote_path_spec(remote_dir, slashes(f.rel@))))
}

/// Every file of `files`, in order, with its `/`-separated relative path:
/// what is packed when the client rules hold no ignore glob.
pub open spec fn packed_all(files: Seq<LocalFile>) -> Seq<(Seq<char>, Seq<char>)> {
    files.map_values(|f: LocalFile| (f.local@, slashes(f.rel@)))
}

/// The remote path of a planned item, by which the plan is sorted.
pub open spec fn remote_key() -> spec_fn((Seq<char>, Seq<char>)) -> Seq<char> {
    |m: (Seq<char>, Seq<char>)| m.1
}

/// The outcome of planning `fs`: `Ok` with the `planned` items sorted by
/// remote path (items with equal remote paths in walk order), or a path the
/// rules cannot test.
pub open spec fn plan_outcome(
    fs: Seq<LocalFile>,
    remote_dir: Seq<char>,
    ignore: DaIgnore,
    r: Result<Vec<UploadItem>, PlanError>,
) -> bool {
    let all_ok = forall|i: int| 0 <= i < fs.len() ==> ignore.client_path_ok(slashes(#[trigger] fs[i].rel@));
    match r {
        Ok(items) => {
            &&& all_ok
            &&& sorted_by_key(items@)
            &&& views(items@) == stable_sort(planned(fs, remote_dir, ignore.root_view(), ignore.client_rules()), remote_key())
            &&& ignore_count(gitignore_build(ignore.root_view(), ignore.client_rules())) == 0 ==> planned(
                fs,
                remote_dir,
                ignore.root_view(),
                ignore.client_rules(),
            ) == planned_all(fs, remote_dir)
        },
        Err(PlanError::OutsideRoot(p)) => !all_ok && exists|i: int|
            0 <= i < fs.len() && p@ == slashes(#[trigger] fs[i].rel@) && !ignore.client_path_ok(p@),
        Err(PlanError::OutputMissing) => false,
    }
}

fn plan_files(files: Vec<LocalFile>, remote_dir: &str, ignore: &DaIgnore) -> (r: Result<Vec<UploadItem>, PlanError>)
    requires
        ignore.wf(),
    ensures
        plan_outcome(files@, remote_dir@, *ignore, r),
{
    let ghost fs = files@;
    let ghost root = ignore.root_view();
    let ghost rules = ignore.client_rules();
    let mut items: Vec<UploadItem> = Vec::new();
    let mut i: usize = 0;
    while i < files.len()
        invariant
            i <= files.len(),
            fs == files@,
            ignore.wf(),
            root == ignore.root_view(),
            rules == ignore.client_rules(),
            forall|k: int| 0 <= k < i ==> ignore.client_path_ok(slashes(#[trigger] fs[k].rel@)),
            views(items@) == planned(fs.subrange(0, i as int), remote_dir@, root, rules),
            ignore_count(gitignore_build(root, rules)) == 0 ==> planned(fs.subrange(0, i as int), remote_dir@, root, rules)
                == planned_all(fs.subrange(0, i as int), remote_dir@),
        decreases files.len() - i,
    {
        let rel = to_slashes(files[i].rel.as_str());
        if !ignore.client_accepts(rel.as_str()) {
            assert(rel@ == slashes(fs[i as int].rel@));
            assert(!ignore.client_path_ok(slashes(fs[i as int].rel@)));
            return Err(PlanError::OutsideRoot(rel));
        }
        proof {
            assert(fs.subrange(0, i + 1).drop_last() =~= fs.subrange(0, i as int));
            assert(fs.subrange(0, i + 1).last() == fs[i as int]);
        }
        if !ignore.client_excludes(rel.as_str()) {
            let remote = remote_path(remote_dir, rel.as_str());
            let ghost before = items@;
            items.push(UploadItem { local: files[i].local.clone(), remote });
            assert(views(items@) =~= views(before).push(items@[before.len() as int]@));
        }
        assert(views(items@) =~= planned(fs.subrange(0, i + 1), remote_dir@, root, rules));
        assert(planned_all(fs.subrange(0, i + 1), remote_dir@) =~= planned_all(fs.subrange(0, i as int), remote_dir@).push(
            (fs[i as int].local@, remote_path_spec(remote_dir@, slashes(fs[i as int].rel@))),
        ));
        i = i + 1;
    }
    assert(fs.subrange(0, files.len() as int) =~= fs);
    assert(planned_all(fs.subrange(0, files.len() as int), remote_dir@) == planned_all(fs, remote_dir@));
    let sorted = sort_by_key(items);
    proof {
        lemma_stable_sort_views(items@, key_of::<UploadItem>(), remote_key());
    }
    Ok(sorted)
}

/// Computes the remote paths of the files found under the output directory
/// (`None` when it does not exist), keeping the relative tree. Files the
/// client rules exclude are left out; the plan is sorted by remote path.
pub fn build_upload_plan(files: Option<Vec<LocalFile>>, remote_dir: &str, ignore: &DaIgnore) -> (r: Result<Vec<UploadItem>, PlanError>)
    requires
        ignore.wf(),
    ensures
        match files {
            None => r matches Err(PlanError::OutputMissing),
            Some(fs) => plan_outcome(fs@, remote_dir@, *ignore, r),
        },
{
    match files {
        None => Err(PlanError::OutputMissing),
        Some(fs) => plan_files(fs, remote_dir, ignore),
    }
}

/// The files packed into the archive for `files`, in their order: those the
/// client rules do not exclude, each with its `/`-separated relative path.
pub open spec fn packed(files: Seq<LocalFile>, root: Seq<char>, rules: Seq<Seq<char>>) -> Seq<(Seq<char>, Seq<char>)>
    decreases files.len(),
{
    if files.len() == 0 {
        seq![]
    } else {
        let rest = packed(files.drop_last(), root, rules);
        let f = files.last();
        let rel = slashes(f.rel@);
        if gitignore_ignores(root, rules, rel) {
            rest
        } else {
            rest.push((f.local@, rel))
        }
    }
}

/// The view of a local file: its path and its relative path.
pub open spec fn file_views(v: Seq<LocalFile>) -> Seq<(Seq<char>, Seq<char>)> {
    v.map_values(|f: LocalFile| (f.local@, f.rel@))
}

fn pack_files(files: Vec<LocalFile>, ignore: &DaIgnore) -> (r: Result<Vec<LocalFile>, PlanError>)
    requires
        ignore.wf(),
    ensures
        match r {
            Ok(m) => {
                &&& forall|i: int| 0 <= i < files@.len() ==> ignore.client_path_ok(slashes(#[trigger] files@[i].rel@))
                &&& file_views(m@) == packed(files@, ignore.root_view(), ignore.client_rules())
                &&& ignore_count(gitignore_build(ignore.root_view(), ignore.client_rules())) == 0 ==> packed(
                    files@,
                    ignore.root_view(),
                    ignore.client_rules(),
                ) == packed_all(files@)
            },
            Err(PlanError::OutsideRoot(p)) => exists|i: int|
                0 <= i < files@.len() && p@ == slashes(#[trigger] files@[i].rel@) && !ignore.client_path_ok(p@),
            Err(PlanError::OutputMissing) => false,
        },
{
    let ghost fs = files@;
    let ghost root = ignore.root_view();
    let ghost rules = ignore.client_rules();
    let mut out: Vec<LocalFile> = Vec::new();
    let mut i: usize = 0;
    while i < files.len()
        invariant
            i <= files.len(),
            fs == files@,
            ignore.wf(),
            root == ignore.root_view(),
            rules == ignore.client_rules(),
            forall|k: int| 0 <= k < i ==> ignore.client_path_ok(slashes(#[trigger] fs[k].rel@)),
            file_views(out@) == packed(fs.subrange(0, i as int), root, rules),
            ignore_count(gitignore_build(root, rules)) == 0 ==> packed(fs.subrange(0, i as int), root, rules)
                == packed_all(fs.subrange(0, i as int)),
        decreases files.len() - i,
    {
        let rel = to_slashes(files[i].rel.as_str());
        if !ignore.client_accepts(rel.as_str()) {
            assert(rel@ == slashes(fs[i as int].rel@));
            return Err(PlanError::OutsideRoot(rel));
        }
        proof {
            assert(fs.subrange(0, i + 1).drop_last() =~= fs.subrange(0, i as int));
            assert(fs.subrange(0, i + 1).last() == fs[i as int]);
        }
        if !ignore.client_excludes(rel.as_str()) {
            let ghost before = out@;
            out.push(LocalFile { local: files[i].local.clone(), rel });
            assert(file_views(out@) =~= file_views(before).push((out@[before.len() as int].local@, out@[before.len() as int].rel@)));
        }
        assert(file_views(out@) =~= packed(fs.subrange(0, i + 1), root, rules));
        assert(packed_all(fs.subrange(0, i + 1)) =~= packed_all(fs.subrange(0, i as int)).push(
            (fs[i as int].local@, slashes(fs[i as int].rel@)),
        ));
        i = i + 1;
    }
    assert(fs.subrange(0, files.len() as int) =~= fs);
    assert(packed_all(fs.subrange(0, files.len() as int)) == packed_all(fs));
    Ok(out)
}

/// The files to pack into the upload archive, in the order the output
/// directory was walked (`None` when it does not exist): those the client
/// rules do not exclude, each with the relative path it gets in the archive.
pub fn archive_members(files: Option<Vec<LocalFile>>, ignore: &DaIgnore) -> (r: Result<Vec<LocalFile>, PlanError>)
    requires
        ignore.wf(),
    ensures
        match files {
            None => r matches Err(PlanError::OutputMissing),
            Some(fs) => match r {
                Ok(m) => {
                    &&& forall|i: int| 0 <= i < fs@.len() ==> ignore.client_path_ok(slashes(#[trigger] fs@[i].rel@))
                    &&& file_views(m@) == packed(fs@, ignore.root_view(), ignore.client_rules())
                    &&& ignore_count(gitignore_build(ignore.root_view(), ignore.client_rules())) == 0 ==> file_views(m@)
                        == packed_all(fs@)
                },
                Err(PlanError::OutsideRoot(p)) => exists|i: int|
                    0 <= i < fs@.len() && p@ == slashes(#[trigger] fs@[i].rel@) && !ignore.client_path_ok(p@),
                Err(PlanError::OutputMissing) => false,
            },
        },
{
    match files {
        None => Err(PlanError::OutputMissing),
        Some(fs) => pack_files(fs, ignore),
    }
}

/// The content of one archive member and the file metadata its tar header
/// records (permission bits, owner, group, modification time).
#[derive(Debug)]
pub struct FileData {
    /// The bytes of the file.
    pub data: Vec<u8>,
    /// Its mode bits.
    pub mode: u32,
    /// Its owner.
    pub uid: u64,
    /// Its group.
    pub gid: u64,
    /// Its modification time, in seconds since the Unix epoch.
    pub mtime: u64,
}

/// An archive entry as plain values: path, content, mode, owner, group and
/// modification time.
pub type TarEntryView = (Seq<char>, Seq<u8>, u32, u64, u64, u64);

/// The entries of the archive of `members` with contents `contents`, in order:
/// each member's relative path with the data of the same index.
pub open spec fn tar_entries(members: Seq<LocalFile>, contents: Seq<FileData>) -> Seq<TarEntryView> {
    Seq::new(
        members.len(),
        |i: int|
            (members[i].rel@, contents[i].data@, contents[i].mode, contents[i].uid, contents[i].gid, contents[i].mtime),
    )
}

/// The views of archive entries held as values.
pub open spec fn entry_views(v: Seq<(String, Vec<u8>, u32, u64, u64, u64)>) -> Seq<TarEntryView> {
    v.map_values(|e: (String, Vec<u8>, u32, u64, u64, u64)| (e.0@, e.1@, e.2, e.3, e.4, e.5))
}

/// The gzip'd tar (compression level 1) holding `entries` as regular files,
/// in order, or the error the encoder gave.
pub uninterp spec fn tar_gz_of(entries: Seq<(Seq<char>, Seq<u8>, u32, u64, u64, u64)>) -> Result<Seq<u8>, Seq<char>>;

/// Writes `entries` as regular files into a tar (`tar::Builder::append_data`
/// with a GNU header carrying size, mode, owner, group and modification
/// time) compressed by `flate2`'s `GzEncoder` at level 1. The contract names
/// the outcome `tar_gz_of` of the entries. Paths are admitted only where every
/// platform splits them alike (no `\`, no drive, not rooted).
#[verifier::external_body]
fn encode_tar_gz(entries: &Vec<(String, Vec<u8>, u32, u64, u64, u64)>) -> (r: Result<Vec<u8>, String>)
    requires
        forall|i: int| 0 <= i < entries@.len() ==> !foreign_rooted(#[trigger] entries@[i].0@),
    ensures
        match r {
            Ok(b) => tar_gz_of(entry_views(entries@)) == Ok::<Seq<u8>, Seq<char>>(b@),
            Err(e) => tar_gz_of(entry_views(entries@)) == Err::<Seq<u8>, Seq<char>>(e@),
        },
{
    let mut b = tar::Builder::new(flate2::write::GzEncoder::new(Vec::new(), flate2::Compression::new(1)));
    for (path, data, mode, uid, gid, mtime) in entries.iter() {
        let mut h = tar::Header::new_gnu();
        h.set_entry_type(tar::EntryType::Regular);
        h.set_size(data.len() as u64);
        h.set_mode(*mode);
        h.set_uid(*uid);
        h.set_gid(*gid);
        h.set_mtime(*mtime);
        if let Err(e) = b.append_data(&mut h, path, data.as_slice()) {
            return Err(e.to_string());
        }
    }
    b.into_inner().and_then(|g| g.finish()).map_err(|e| e.to_string())
}

/// Why the upload archive could not be made.
#[derive(Debug)]
pub enum PackError {
    /// A member path that is rooted, or names a drive, on some platform.
    Rooted(String),
    /// The encoder failed.
    Encode(String),
}

/// Packs `members` (as `archive_members` gives them), with the content and
/// metadata `contents` of each, into the in-memory gzip'd tar that is sent:
/// one regular file per member, at its relative path, in order.
pub fn make_tar_gz(members: &Vec<LocalFile>, contents: &Vec<FileData>) -> (r: Result<Vec<u8>, PackError>)
    requires
        members@.len() == contents@.len(),
    ensures
        (forall|i: int| 0 <= i < members@.len() ==> !foreign_rooted(#[trigger] members@[i].rel@)) ==> match tar_gz_of(
            tar_entries(members@, contents@),
        ) {
            Ok(b) => r matches Ok(x) && x@ == b,
            Err(e) => r matches Err(PackError::Encode(m)) && m@ == e,
        },
        r matches Err(PackError::Rooted(p)) ==> exists|i: int|
            0 <= i < members@.len() && p@ == #[trigger] members@[i].rel@ && foreign_rooted(p@),
{
    let mut entries: Vec<(String, Vec<u8>, u32, u64, u64, u64)> = Vec::new();
    let mut i: usize = 0;
    while i < members.len()
        invariant
            i <= members.len(),
            members@.len() == contents@.len(),
            entry_views(entries@) == tar_entries(members@, contents@).subrange(0, i as int),
            forall|k: int| 0 <= k < i ==> !foreign_rooted(#[trigger] members@[k].rel@),
        decreases members.len() - i,
    {
        let m = &members[i];
        if is_foreign_rooted(&chars_of(m.rel.as_str())) {
            return Err(PackError::Rooted(m.rel.clone()));
        }
        let c = &contents[i];
        let data = c.data.clone();
        let ghost before = entries@;
        entries.push((m.rel.clone(), data, c.mode, c.uid, c.gid, c.mtime));
        assert(entry_views(entries@) =~= tar_entries(members@, contents@).subrange(0, i + 1)) by {
            assert(entry_views(entries@) =~= entry_views(before).push(
                (entries@[i as int].0@, entries@[i as int].1@, c.mode, c.uid, c.gid, c.mtime),
            ));
        }
        i = i + 1;
    }
    assert(tar_entries(members@, contents@).subrange(0, members.len() as int) =~= tar_entries(members@, contents@));
    proof {
        assert forall|k: int| 0 <= k < entries@.len() implies !foreign_rooted(#[trigger] entries@[k].0@) by {
            assert(entry_views(entries@)[k].0 == entries@[k].0@);
        }
    }
    match encode_tar_gz(&entries) {
        Ok(b) => Ok(b),
        Err(e) => Err(PackError::Encode(e)),
    }
}

/// A walked file is planned (and packed) exactly when the client matcher does
/// not ignore its `/`-separated relative path, whatever its depth: the plan is
/// the walked files the matcher keeps, in walk order, each with its remote
/// path, and the archive members are the same files with their relative paths.
pub proof fn law_plan_keeps_exactly_the_unignored(
    files: Seq<LocalFile>,
    remote_dir: Seq<char>,
    root: Seq<char>,
    rules: Seq<Seq<char>>,
)
    ensures
        planned(files, remote_dir, root, rules) == files.filter(
            |f: LocalFile| !gitignore_ignores(root, rules, slashes(f.rel@)),
        ).map_values(|f: LocalFile| (f.local@, remote_path_spec(remote_dir, slashes(f.rel@)))),
        packed(files, root, rules) == files.filter(
            |f: LocalFile| !gitignore_ignores(root, rules, slashes(f.rel@)),
        ).map_values(|f: LocalFile| (f.local@, slashes(f.rel@))),
    decreases files.len(),
{
    let keep = |f: LocalFile| !gitignore_ignores(root, rules, slashes(f.rel@));
    let item = |f: LocalFile| (f.local@, remote_path_spec(remote_dir, slashes(f.rel@)));
    let member = |f: LocalFile| (f.local@, slashes(f.rel@));
    reveal_with_fuel(Seq::filter, 1);
    if files.len() == 0 {
        assert(files.filter(keep) =~= seq![]);
        assert(files.filter(keep).map_values(item) =~= seq![]);
        assert(files.filter(keep).map_values(member) =~= seq![]);
    } else {
        let init = files.drop_last();
        let f = files.last();
        law_plan_keeps_exactly_the_unignored(init, remote_dir, root, rules);
        if keep(f) {
            assert(files.filter(keep) == init.filter(keep).push(f));
            assert(init.filter(keep).push(f).map_values(item) =~= init.filter(keep).map_values(item).push(item(f)));
            assert(init.filter(keep).push(f).map_values(member) =~= init.filter(keep).map_values(member).push(member(f)));
        } else {
            assert(files.filter(keep) == init.filter(keep));
        }
    }
}

/// The upload plan and the archive agree: the plan holds exactly the files
/// packed into the archive, each sent to its path under the remote directory
/// (so the count the log reports is the archive's).
pub proof fn law_plan_matches_archive(files: Seq<LocalFile>, remote_dir: Seq<char>, root: Seq<char>, rules: Seq<Seq<char>>)
    ensures
        planned(files, remote_dir, root, rules) == packed(files, root, rules).map_values(
            |m: (Seq<char>, Seq<char>)| (m.0, remote_path_spec(remote_dir, m.1)),
        ),
    decreases files.len(),
{
    if files.len() > 0 {
        law_plan_matches_archive(files.drop_last(), remote_dir, root, rules);
        let f = |m: (Seq<char>, Seq<char>)| (m.0, remote_path_spec(remote_dir, m.1));
        let p0 = packed(files.drop_last(), root, rules);
        let rel = slashes(files.last().rel@);
        if !gitignore_ignores(root, rules, rel) {
            assert(p0.push((files.last().local@, rel)).map_values(f) =~= p0.map_values(f).push(f((files.last().local@, rel))));
        }
    } else {
        assert(packed(files, root, rules).map_values(
            |m: (Seq<char>, Seq<char>)| (m.0, remote_path_spec(remote_dir, m.1)),
        ) =~= seq![]);
    }
}

/// The sorted upload plan and the archive hold the same files: the plan is
/// the archive's members, each sent to its path under the remote directory,
/// ordered by remote path (equal paths in walk order); every member appears
/// in the plan, and nothing else.
pub proof fn law_sorted_plan_matches_archive(files: Seq<LocalFile>, remote_dir: Seq<char>, root: Seq<char>, rules: Seq<Seq<char>>)
    ensures
        ({
            let sent = packed(files, root, rules).map_values(
                |m: (Seq<char>, Seq<char>)| (m.0, remote_path_spec(remote_dir, m.1)),
            );
            &&& stable_sort(planned(files, remote_dir, root, rules), remote_key()) == stable_sort(sent, remote_key())
            &&& stable_sort(planned(files, remote_dir, root, rules), remote_key()).to_multiset() == sent.to_multiset()
        }),
{
    law_plan_matches_archive(files, remote_dir, root, rules);
    lemma_stable_sort_multiset(planned(files, remote_dir, root, rules), remote_key());
}

/// The remote files to delete and how many the server rules protect: of
/// `files`, in order, those the server rules do not protect.
pub open spec fn unprotected(files: Seq<Seq<char>>, root: Seq<char>, rules: Seq<Seq<char>>) -> Seq<Seq<char>>
    decreases files.len(),
{
    if files.len() == 0 {
        seq![]
    } else {
        let rest = unprotected(files.drop_last(), root, rules);
        if gitignore_ignores(root, rules, files.last()) {
            rest
        } else {
            rest.push(files.last())
        }
    }
}

/// A selective clean deletes exactly the listed files the server rules do
/// not protect: every path it deletes was listed and is not protected, and
/// every listed path that is not protected is deleted.
pub proof fn law_clean_spares_protected(fs: Seq<Seq<char>>, root: Seq<char>, rules: Seq<Seq<char>>)
    ensures
        forall|x: Seq<char>| #[trigger] unprotected(fs, root, rules).contains(x) <==> (fs.contains(x)
            && !gitignore_ignores(root, rules, x)),
    decreases fs.len(),
{
    if fs.len() > 0 {
        let init = fs.drop_last();
        law_clean_spares_protected(init, root, rules);
        assert forall|x: Seq<char>| #[trigger] unprotected(fs, root, rules).contains(x) <==> (fs.contains(x)
            && !gitignore_ignores(root, rules, x)) by {
            assert(fs =~= init.push(fs.last()));
            if fs.contains(x) && x != fs.last() {
                let i = choose|i: int| 0 <= i < fs.len() && fs[i] == x;
                assert(init[i] == x);
            }
            if init.contains(x) {
                let i = choose|i: int| 0 <= i < init.len() && init[i] == x;
                assert(fs[i] == x);
            }
            let rest = unprotected(init, root, rules);
            if !gitignore_ignores(root, rules, fs.last()) {
                assert(rest.push(fs.last())[rest.len() as int] == fs.last());
                if rest.contains(x) {
                    let j = choose|j: int| 0 <= j < rest.len() && rest[j] == x;
                    assert(rest.push(fs.last())[j] == x);
                }
                if rest.push(fs.last()).contains(x) && x != fs.last() {
                    let j = choose|j: int| 0 <= j < rest.len() + 1 && rest.push(fs.last())[j] == x;
                    assert(rest[j] == x);
                }
            }
            assert(fs[fs.len() - 1] == fs.last());
        }
    }
}

/// Why cleaning the remote stopped.
#[derive(Debug)]
pub enum CleanError {
    /// The remote directory may not be cleaned (blank, or `/`).
    Refused(RemoteDirError),
    /// The remote side failed.
    Remote(RemoteError),
    /// A listed remote path the ignore rules cannot test.
    OutsideRoot(String),
}

/// Splits the listed remote files into those to delete (in order) and the
/// number the server rules protect.
pub fn split_protected(files: &Vec<String>, ignore: &DaIgnore) -> (r: Result<(Vec<String>, usize), String>)
    requires
        ignore.wf(),
    ensures
        match r {
            Ok((del, n)) => {
                &&& forall|i: int| 0 <= i < files.len() ==> ignore.server_path_ok(#[trigger] files@[i]@)
                &&& views(del@) == unprotected(views(files@), ignore.root_view(), ignore.server_rules())
                &&& n + del@.len() == files@.len()
            },
            Err(p) => exists|i: int| 0 <= i < files.len() && p@ == #[trigger] files@[i]@ && !ignore.server_path_ok(p@),
        },
{
    let ghost fv = views(files@);
    let mut del: Vec<String> = Vec::new();
    let mut n: usize = 0;
    let mut i: usize = 0;
    while i < files.len()
        invariant
            i <= files.len(),
            fv == views(files@),
            ignore.wf(),
            forall|k: int| 0 <= k < i ==> ignore.server_path_ok(#[trigger] files@[k]@),
            views(del@) == unprotected(fv.subrange(0, i as int), ignore.root_view(), ignore.server_rules()),
            n + del@.len() == i,
        decreases files.len() - i,
    {
        if !ignore.server_accepts(files[i].as_str()) {
            return Err(files[i].clone());
        }
        proof {
            assert(fv.subrange(0, i + 1).drop_last() =~= fv.subrange(0, i as int));
            assert(fv.subrange(0, i + 1).last() == files@[i as int]@);
        }
        if ignore.server_protects(files[i].as_str()) {
            n = n + 1;
        } else {
            del.push(files[i].clone());
        }
        assert(views(del@) =~= unprotected(fv.subrange(0, i + 1), ignore.root_view(), ignore.server_rules()));
        i = i + 1;
    }
    assert(fv.subrange(0, files.len() as int) =~= fv);
    Ok((del, n))
}

/// The server rules of `ignore` hold at least one ignore glob.
pub open spec fn has_server_rules_spec(ignore: DaIgnore) -> bool {
    ignore_count(gitignore_build(ignore.root_view(), ignore.server_rules())) > 0
}

/// How the remote directory is cleaned.
#[derive(Debug, Clone, Copy, PartialEq, Eq, Structural)]
pub enum CleanMode {
    /// Wipe everything inside it (`clean_remote_dir`): no server rules.
    Wipe,
    /// List its files, then delete only those the server rules do not
    /// protect (`list_remote_files`, then `delete_remote_paths`).
    Selective,
}

/// How to clean `remote_dir`, decided before any call on the remote: a blank
/// directory or `/` is refused; without server protection rules everything
/// inside it is wiped; with them the deletion is selective.
pub fn clean_mode(remote_dir: &str, ignore: &DaIgnore) -> (r: Result<CleanMode, CleanError>)
    requires
        ignore.wf(),
    ensures
        match remote_dir_verdict(remote_dir@) {
            Err(e) => r == Err::<CleanMode, CleanError>(CleanError::Refused(e)),
            Ok(()) => if has_server_rules_spec(*ignore) {
                r == Ok::<CleanMode, CleanError>(CleanMode::Selective)
            } else {
                r == Ok::<CleanMode, CleanError>(CleanMode::Wipe)
            },
        },
{
    if let Err(e) = validate_remote_dir(remote_dir) {
        return Err(CleanError::Refused(e));
    }
    if ignore.has_server_rules() {
        Ok(CleanMode::Selective)
    } else {
        Ok(CleanMode::Wipe)
    }
}

/// What a selective clean deletes, given what listing the remote directory
/// gave: the listed paths the server rules do not protect, in order, with the
/// number of protected ones; or why it stops (the listing failed, or a listed
/// path cannot be tested), in which case nothing is deleted.
pub fn deletions(listing: Result<Vec<String>, RemoteError>, ignore: &DaIgnore) -> (r: Result<(Vec<String>, usize), CleanError>)
    requires
        ignore.wf(),
    ensures
        match listing {
            Err(e) => r matches Err(CleanError::Remote(x)) && x == e,
            Ok(fs) => if forall|i: int| 0 <= i < fs@.len() ==> ignore.server_path_ok(#[trigger] fs@[i]@) {
                r matches Ok((del, n)) && views(del@) == unprotected(views(fs@), ignore.root_view(), ignore.server_rules())
                    && n + del@.len() == fs@.len()
            } else {
                r matches Err(CleanError::OutsideRoot(p)) && exists|i: int|
                    0 <= i < fs@.len() && p@ == #[trigger] fs@[i]@ && !ignore.server_path_ok(p@)
            },
        },
{
    match listing {
        Err(e) => Err(CleanError::Remote(e)),
        Ok(fs) => match split_protected(&fs, ignore) {
            Ok(s) => Ok(s),
            Err(p) => Err(CleanError::OutsideRoot(p)),
        },
    }
}

/// The result of a clean once its last call on the remote (the wipe, or the
/// deletion) ended with `outcome`: the number of protected files `protected`
/// (`0` after a wipe) when it succeeded, its error otherwise.
pub fn clean_result(outcome: Result<(), RemoteError>, protected: usize) -> (r: Result<usize, CleanError>)
    ensures
        match outcome {
            Ok(()) => r == Ok::<usize, CleanError>(protected),
            Err(e) => r matches Err(CleanError::Remote(x)) && x == e,
        },
{
    match outcome {
        Ok(()) => Ok(protected),
        Err(e) => Err(CleanError::Remote(e)),
    }
}

} // verus!
