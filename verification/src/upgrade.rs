//! `da upgrade`: which release to fetch for this platform, whether to fetch
//! it, and which archive entry is the program.

use vstd::prelude::*;
use std::io::Read;
use crate::paths::{file_name, file_name_spec};
use crate::text::{chars_eq, chars_of, ends_with_chars, has_prefix, has_suffix, push_str, string_from_range, trim_start_char_spec};

verus! {

/// The GitHub repository the releases come from.
pub const REPO: &'static str = "KingTimer12/da-cli";

/// An operating system.
#[derive(Debug, Clone, Copy, PartialEq, Eq, Structural)]
pub enum Os {
    /// Linux.
    Linux,
    /// macOS.
    MacOs,
    /// Windows.
    Windows,
    /// Any other.
    Other,
}

/// A processor architecture.
#[derive(Debug, Clone, Copy, PartialEq, Eq, Structural)]
pub enum Arch {
    /// 64-bit x86.
    X86_64,
    /// 64-bit ARM.
    Aarch64,
    /// Any other.
    Other,
}

impl Os {
    /// The system named `name` as `std::env::consts::OS` names it.
    pub fn from_name(name: &str) -> (r: Os)
        ensures
            name@ == "linux"@ ==> r == Os::Linux,
            name@ == "macos"@ ==> r == Os::MacOs,
            name@ == "windows"@ ==> r == Os::Windows,
            name@ != "linux"@ && name@ != "macos"@ && name@ != "windows"@ ==> r == Os::Other,
    {
        proof {
            reveal_strlit("linux");
            reveal_strlit("macos");
            reveal_strlit("windows");
            assert("linux"@[0] != "macos"@[0] && "linux"@[0] != "windows"@[0] && "macos"@[0] != "windows"@[0]);
        }
        let n = chars_of(name);
        if chars_eq(&n, &chars_of("linux")) {
            Os::Linux
        } else if chars_eq(&n, &chars_of("macos")) {
            Os::MacOs
        } else if chars_eq(&n, &chars_of("windows")) {
            Os::Windows
        } else {
            Os::Other
        }
    }
}

impl Arch {
    /// The architecture named `name` as `std::env::consts::ARCH` names it.
    pub fn from_name(name: &str) -> (r: Arch)
        ensures
            name@ == "x86_64"@ ==> r == Arch::X86_64,
            name@ == "aarch64"@ ==> r == Arch::Aarch64,
            name@ != "x86_64"@ && name@ != "aarch64"@ ==> r == Arch::Other,
    {
        proof {
            reveal_strlit("x86_64");
            reveal_strlit("aarch64");
            assert("x86_64"@[0] != "aarch64"@[0]);
        }
        let n = chars_of(name);
        if chars_eq(&n, &chars_of("x86_64")) {
            Arch::X86_64
        } else if chars_eq(&n, &chars_of("aarch64")) {
            Arch::Aarch64
        } else {
            Arch::Other
        }
    }
}

/// Why the upgrade cannot go on.
#[derive(Debug, Clone, PartialEq)]
pub enum UpgradeError {
    /// No prebuilt release exists for this platform.
    NoPrebuilt,
    /// The GitHub answer is not valid JSON.
    BadResponse(String),
    /// The latest release has no `tag_name`.
    NoTagName,
}

/// The release target triple and archive extension for a platform.
pub open spec fn target_spec(os: Os, arch: Arch) -> Option<(Seq<char>, Seq<char>)> {
    match (os, arch) {
        (Os::Linux, Arch::X86_64) => Some(("x86_64-unknown-linux-gnu"@, "tar.gz"@)),
        (Os::MacOs, Arch::Aarch64) => Some(("aarch64-apple-darwin"@, "tar.gz"@)),
        (Os::MacOs, Arch::X86_64) => Some(("x86_64-apple-darwin"@, "tar.gz"@)),
        (Os::Windows, Arch::X86_64) => Some(("x86_64-pc-windows-msvc"@, "zip"@)),
        _ => None,
    }
}

/// The build target of a platform and the extension of its release file.
pub fn target(os: Os, arch: Arch) -> (r: Result<(String, String), UpgradeError>)
    ensures
        match r {
            Ok((t, e)) => target_spec(os, arch) == Some((t@, e@)),
            Err(err) => target_spec(os, arch) is None && err == UpgradeError::NoPrebuilt,
        },
{
    match (os, arch) {
        (Os::Linux, Arch::X86_64) => Ok(("x86_64-unknown-linux-gnu".to_owned(), "tar.gz".to_owned())),
        (Os::MacOs, Arch::Aarch64) => Ok(("aarch64-apple-darwin".to_owned(), "tar.gz".to_owned())),
        (Os::MacOs, Arch::X86_64) => Ok(("x86_64-apple-darwin".to_owned(), "tar.gz".to_owned())),
        (Os::Windows, Arch::X86_64) => Ok(("x86_64-pc-windows-msvc".to_owned(), "zip".to_owned())),
        _ => Err(UpgradeError::NoPrebuilt),
    }
}

/// The name of the program file on a system.
pub fn bin_name(os: Os) -> (r: String)
    ensures
        os == Os::Windows ==> r@ == "da.exe"@,
        os != Os::Windows ==> r@ == "da"@,
{
    match os {
        Os::Windows => "da.exe".to_owned(),
        _ => "da".to_owned(),
    }
}

/// The value of the `tag_name` field of the JSON text `body`: `Err` with the
/// parser's message when `body` is not JSON, `Ok(None)` when the field is
/// missing or not a string.
pub uninterp spec fn json_tag_name(body: Seq<char>) -> Result<Option<Seq<char>>, Seq<char>>;

/// Parses `body` as JSON (`serde_json::from_str` into a `Value`) and reads its
/// `tag_name` string (`get("tag_name")` then `as_str`). The contract names the
/// outcome `json_tag_name` of the body.
#[verifier::external_body]
fn read_tag_name(body: &str) -> (r: Result<Option<String>, String>)
    ensures
        match r {
            Ok(Some(t)) => json_tag_name(body@) == Ok::<Option<Seq<char>>, Seq<char>>(Some(t@)),
            Ok(None) => json_tag_name(body@) == Ok::<Option<Seq<char>>, Seq<char>>(None),
            Err(e) => json_tag_name(body@) == Err::<Option<Seq<char>>, Seq<char>>(e@),
        },
{
    match serde_json::from_str::<serde_json::Value>(body) {
        Ok(v) => Ok(v.get("tag_name").and_then(|t| t.as_str()).map(|t| t.to_owned())),
        Err(e) => Err(e.to_string()),
    }
}

/// The version a release tag names: the tag without leading `v`s.
pub fn version_of_tag(tag: &str) -> (r: String)
    ensures
        r@ == trim_start_char_spec(tag@, 'v'),
{
    let v = chars_of(tag);
    let mut i: usize = 0;
    assert(v@.subrange(0, v.len() as int) =~= v@);
    while i < v.len() && v[i] == 'v'
        invariant
            i <= v.len(),
            trim_start_char_spec(tag@, 'v') == trim_start_char_spec(v@.subrange(i as int, v.len() as int), 'v'),
            v@ == tag@,
        decreases v.len() - i,
    {
        assert(v@.subrange(i as int, v.len() as int).drop_first() =~= v@.subrange(i + 1, v.len() as int));
        i = i + 1;
    }
    proof {
        let t = v@.subrange(i as int, v.len() as int);
        if i < v.len() {
            assert(t[0] == v@[i as int]);
        }
    }
    string_from_range(&v, i, v.len())
}

/// The latest version, from the body of GitHub's "latest release" answer.
pub fn latest_version(body: &str) -> (r: Result<String, UpgradeError>)
    ensures
        match json_tag_name(body@) {
            Ok(Some(t)) => r matches Ok(v) && v@ == trim_start_char_spec(t, 'v'),
            Ok(None) => r == Err::<String, UpgradeError>(UpgradeError::NoTagName),
            Err(e) => r matches Err(UpgradeError::BadResponse(m)) && m@ == e,
        },
{
    match read_tag_name(body) {
        Ok(Some(t)) => Ok(version_of_tag(t.as_str())),
        Ok(None) => Err(UpgradeError::NoTagName),
        Err(e) => Err(UpgradeError::BadResponse(e)),
    }
}

/// What `da upgrade` does once it knows the latest version.
#[derive(Debug, Clone, Copy, PartialEq, Eq, Structural)]
pub enum UpgradeStep {
    /// Already on the latest version: nothing to do.
    UpToDate,
    /// Same version, installed again because `--force` was given.
    Reinstall,
    /// A newer version is installed.
    Install,
}

/// The step for the latest version `latest`, the running version `current`
/// and `--force`.
pub fn upgrade_step(latest: &str, current: &str, force: bool) -> (r: UpgradeStep)
    ensures
        latest@ == current@ && !force ==> r == UpgradeStep::UpToDate,
        latest@ == current@ && force ==> r == UpgradeStep::Reinstall,
        latest@ != current@ ==> r == UpgradeStep::Install,
{
    let same = chars_eq(&chars_of(latest), &chars_of(current));
    if same && !force {
        UpgradeStep::UpToDate
    } else if same {
        UpgradeStep::Reinstall
    } else {
        UpgradeStep::Install
    }
}

/// The download address of a release file.
pub open spec fn release_url_spec(version: Seq<char>, target: Seq<char>, ext: Seq<char>) -> Seq<char> {
    "https://github.com/"@ + REPO@ + "/releases/download/v"@ + version + "/da-"@ + target + "."@ + ext
}

/// The download address of the release file for `version`, `target`, `ext`.
pub fn release_url(version: &str, target: &str, ext: &str) -> (r: String)
    ensures
        r@ == release_url_spec(version@, target@, ext@),
{
    let mut r = String::new();
    push_str(&mut r, "https://github.com/");
    push_str(&mut r, REPO);
    push_str(&mut r, "/releases/download/v");
    push_str(&mut r, version);
    push_str(&mut r, "/da-");
    push_str(&mut r, target);
    push_str(&mut r, ".");
    push_str(&mut r, ext);
    assert(r@ =~= release_url_spec(version@, target@, ext@));
    r
}

/// The download address names the asked-for file of the asked-for release:
/// it starts with the repository's download path for tag `v<version>` and
/// ends with `/da-<target>.<ext>`, with nothing in between; so a different
/// extension, target or version gives a different address.
pub proof fn law_release_url_names_the_file(version: Seq<char>, target: Seq<char>, ext: Seq<char>)
    ensures
        ({
            let u = release_url_spec(version, target, ext);
            let head = "https://github.com/"@ + REPO@ + "/releases/download/v"@ + version;
            let tail = "/da-"@ + target + "."@ + ext;
            &&& has_prefix(u, head)
            &&& has_suffix(u, tail)
            &&& u.len() == head.len() + tail.len()
        }),
{
    let u = release_url_spec(version, target, ext);
    let head = "https://github.com/"@ + REPO@ + "/releases/download/v"@ + version;
    let tail = "/da-"@ + target + "."@ + ext;
    assert(u =~= head + tail);
    assert(u.subrange(0, head.len() as int) =~= head);
    assert(u.subrange(u.len() - tail.len(), u.len() as int) =~= tail);
}

/// The address of GitHub's "latest release" answer for the repository.
pub fn latest_release_api_url() -> (r: String)
    ensures
        r@ == "https://api.github.com/repos/"@ + REPO@ + "/releases/latest"@,
{
    let mut r = String::new();
    push_str(&mut r, "https://api.github.com/repos/");
    push_str(&mut r, REPO);
    push_str(&mut r, "/releases/latest");
    r
}

/// Whether the tar entry at `path` is the program `bin`: its file name is `bin`.
pub fn tar_entry_is_binary(path: &str, bin: &str) -> (b: bool)
    ensures
        b == (file_name_spec(path@) == Some(bin@)),
{
    match file_name(path) {
        Some(n) => chars_eq(&chars_of(n.as_str()), &chars_of(bin)),
        None => false,
    }
}

/// Whether the zip entry named `name` is the program `bin`: its name ends with `bin`.
pub fn zip_entry_is_binary(name: &str, bin: &str) -> (b: bool)
    ensures
        b == has_suffix(name@, bin@),
{
    ends_with_chars(&chars_of(name), &chars_of(bin))
}

/// The texts held by a vector of strings.
pub open spec fn texts(v: Seq<String>) -> Seq<Seq<char>> {
    v.map_values(|t: String| t@)
}

/// The view of an optional text.
pub open spec fn opt_string(e: Option<String>) -> Option<Seq<char>> {
    match e {
        Some(t) => Some(t@),
        None => None,
    }
}

/// The paths of the entries of the gzip'd tar `archive`, in order, up to the
/// first entry that cannot be read, and that error's text if there is one.
pub uninterp spec fn tar_gz_paths(archive: Seq<u8>) -> (Seq<Seq<char>>, Option<Seq<char>>);

/// The content of the entry at `index` of the gzip'd tar `archive`, or the
/// error met reading up to it.
pub uninterp spec fn tar_gz_data(archive: Seq<u8>, index: nat) -> Result<Seq<u8>, Seq<char>>;

/// The names of the entries of the zip `archive`, in order, up to the first
/// entry that cannot be opened, and that error's text if there is one.
pub uninterp spec fn zip_names(archive: Seq<u8>) -> (Seq<Seq<char>>, Option<Seq<char>>);

/// The content of the entry at `index` of the zip `archive`, or the error met
/// opening or reading it.
pub uninterp spec fn zip_data(archive: Seq<u8>, index: nat) -> Result<Seq<u8>, Seq<char>>;

/// Reads the entry paths of the gzip'd tar `archive` (`flate2::read::GzDecoder`,
/// `tar::Archive::entries`, each entry's `path_bytes` as text): the paths up
/// to the first error, and that error. The contract names the outcome
/// `tar_gz_paths` of the archive.
#[verifier::external_body]
fn read_tar_gz_paths(archive: &[u8]) -> (r: (Vec<String>, Option<String>))
    ensures
        (texts(r.0@), opt_string(r.1)) == tar_gz_paths(archive@),
{
    let mut out = Vec::new();
    let mut ar = tar::Archive::new(flate2::read::GzDecoder::new(archive));
    let mut read = || -> std::io::Result<()> {
        for item in ar.entries()? {
            out.push(String::from_utf8_lossy(&item?.path_bytes()).into_owned());
        }
        Ok(())
    };
    let err = read().err().map(|e| e.to_string());
    (out, err)
}

/// Reads the content of the entry at `index` of the gzip'd tar `archive`
/// (`tar::Archive::entries`, its `nth` item, then `read_to_end`). The
/// contract names the outcome `tar_gz_data` of the archive and index.
#[verifier::external_body]
fn read_tar_gz_data(archive: &[u8], index: usize) -> (r: Result<Vec<u8>, String>)
    ensures
        match r {
            Ok(d) => tar_gz_data(archive@, index as nat) == Ok::<Seq<u8>, Seq<char>>(d@),
            Err(e) => tar_gz_data(archive@, index as nat) == Err::<Seq<u8>, Seq<char>>(e@),
        },
{
    let mut ar = tar::Archive::new(flate2::read::GzDecoder::new(archive));
    let mut read = || -> std::io::Result<Vec<u8>> {
        let item = ar.entries()?.nth(index);
        let mut e = item.unwrap_or_else(|| Err(std::io::ErrorKind::UnexpectedEof.into()))?;
        let mut data = Vec::new();
        e.read_to_end(&mut data)?;
        Ok(data)
    };
    read().map_err(|e| e.to_string())
}

/// Reads the entry names of the zip `archive` (`zip::ZipArchive::new`, then
/// `by_index` and `name` for each entry): the names up to the first error,
/// and that error. The contract names the outcome `zip_names` of the archive.
#[verifier::external_body]
fn read_zip_names(archive: &[u8]) -> (r: (Vec<String>, Option<String>))
    ensures
        (texts(r.0@), opt_string(r.1)) == zip_names(archive@),
{
    let mut out = Vec::new();
    let mut read = || -> zip::result::ZipResult<()> {
        let mut z = zip::ZipArchive::new(std::io::Cursor::new(archive))?;
        for i in 0..z.len() {
            out.push(z.by_index(i)?.name().to_string());
        }
        Ok(())
    };
    let err = read().err().map(|e| e.to_string());
    (out, err)
}

/// Reads the content of the entry at `index` of the zip `archive`
/// (`zip::ZipArchive::new`, `by_index`, then `read_to_end`). The contract
/// names the outcome `zip_data` of the archive and index.
#[verifier::external_body]
fn read_zip_data(archive: &[u8], index: usize) -> (r: Result<Vec<u8>, String>)
    ensures
        match r {
            Ok(d) => zip_data(archive@, index as nat) == Ok::<Seq<u8>, Seq<char>>(d@),
            Err(e) => zip_data(archive@, index as nat) == Err::<Seq<u8>, Seq<char>>(e@),
        },
{
    let mut read = || -> zip::result::ZipResult<Vec<u8>> {
        let mut z = zip::ZipArchive::new(std::io::Cursor::new(archive))?;
        let mut f = z.by_index(index)?;
        let mut data = Vec::new();
        f.read_to_end(&mut data)?;
        Ok(data)
    };
    read().map_err(|e| e.to_string())
}

/// Why the program could not be taken out of a release archive.
#[derive(Debug, Clone, PartialEq)]
pub enum ExtractError {
    /// The archive could not be read up to the program.
    Archive(String),
    /// No entry of the archive is the program.
    NotFound,
}

/// The index of the first of `names` that satisfies `is_bin`.
pub open spec fn first_match(names: Seq<Seq<char>>, is_bin: spec_fn(Seq<char>) -> bool) -> Option<nat>
    decreases names.len(),
{
    if names.len() == 0 {
        None
    } else if is_bin(names[0]) {
        Some(0)
    } else {
        match first_match(names.drop_first(), is_bin) {
            Some(i) => Some(i + 1),
            None => None,
        }
    }
}

/// What taking the program out of an archive gives: the content of the first
/// entry (among the `names` read before the error `err`) whose name satisfies
/// `is_bin`, read through `data`; when there is none, the error `err` (as
/// `Err(Some(..))`) or `Err(None)` when the whole archive was read.
pub open spec fn pick_binary(
    names: Seq<Seq<char>>,
    err: Option<Seq<char>>,
    data: spec_fn(nat) -> Result<Seq<u8>, Seq<char>>,
    is_bin: spec_fn(Seq<char>) -> bool,
) -> Result<Seq<u8>, Option<Seq<char>>> {
    match first_match(names, is_bin) {
        Some(i) => match data(i) {
            Ok(d) => Ok(d),
            Err(e) => Err(Some(e)),
        },
        None => Err(err),
    }
}

/// What taking the program out gives, as the error the user sees.
pub open spec fn extract_outcome(p: Result<Seq<u8>, Option<Seq<char>>>, r: Result<Vec<u8>, ExtractError>) -> bool {
    match p {
        Ok(d) => r matches Ok(b) && b@ == d,
        Err(Some(e)) => r matches Err(ExtractError::Archive(m)) && m@ == e,
        Err(None) => r matches Err(ExtractError::NotFound),
    }
}

/// A tar entry path that is the program `bin`.
pub open spec fn tar_is_bin(bin: Seq<char>) -> spec_fn(Seq<char>) -> bool {
    |p: Seq<char>| file_name_spec(p) == Some(bin)
}

/// A zip entry name that is the program `bin`.
pub open spec fn zip_is_bin(bin: Seq<char>) -> spec_fn(Seq<char>) -> bool {
    |n: Seq<char>| has_suffix(n, bin)
}

proof fn lemma_first_match_skip(names: Seq<Seq<char>>, f: spec_fn(Seq<char>) -> bool, i: int)
    requires
        0 <= i <= names.len(),
        forall|k: int| 0 <= k < i ==> !f(#[trigger] names[k]),
    ensures
        first_match(names, f) == match first_match(names.subrange(i, names.len() as int), f) {
            Some(j) => Some((j + i) as nat),
            None => None::<nat>,
        },
    decreases i,
{
    if i > 0 {
        assert(names.drop_first().subrange(i - 1, names.drop_first().len() as int) =~= names.subrange(i, names.len() as int));
        assert forall|k: int| 0 <= k < i - 1 implies !f(#[trigger] names.drop_first()[k]) by {
            assert(names.drop_first()[k] == names[k + 1]);
        }
        assert(!f(names[0]));
        lemma_first_match_skip(names.drop_first(), f, i - 1);
    } else {
        assert(names.subrange(0, names.len() as int) =~= names);
    }
}

/// The index of the first of `names` whose name satisfies `is_bin`, with
/// `is_bin` computed by `tar_entry_is_binary` or `zip_entry_is_binary`.
fn find_binary(names: &Vec<String>, bin: &str, zip: bool) -> (r: Option<usize>)
    ensures
        ({
            let f = if zip { zip_is_bin(bin@) } else { tar_is_bin(bin@) };
            match first_match(texts(names@), f) {
                Some(i) => r matches Some(j) && j == i,
                None => r is None,
            }
        }),
{
    let ghost nv = texts(names@);
    let ghost f = if zip { zip_is_bin(bin@) } else { tar_is_bin(bin@) };
    let mut i: usize = 0;
    while i < names.len()
        invariant
            i <= names.len(),
            nv == texts(names@),
            f == (if zip { zip_is_bin(bin@) } else { tar_is_bin(bin@) }),
            forall|k: int| 0 <= k < i ==> !f(#[trigger] nv[k]),
        decreases names.len() - i,
    {
        let hit = if zip {
            zip_entry_is_binary(names[i].as_str(), bin)
        } else {
            tar_entry_is_binary(names[i].as_str(), bin)
        };
        assert(nv[i as int] == names@[i as int]@);
        if hit {
            proof {
                lemma_first_match_skip(nv, f, i as int);
                assert(f(nv.subrange(i as int, nv.len() as int)[0]));
            }
            return Some(i);
        }
        i = i + 1;
    }
    proof {
        lemma_first_match_skip(nv, f, nv.len() as int);
    }
    None
}

/// The program `bin` from the gzip'd tar release `archive`: the content of
/// the first entry whose file name is `bin`. Entries after it are not read.
pub fn binary_from_tar_gz(archive: &[u8], bin: &str) -> (r: Result<Vec<u8>, ExtractError>)
    ensures
        extract_outcome(
            pick_binary(
                tar_gz_paths(archive@).0,
                tar_gz_paths(archive@).1,
                |i: nat| tar_gz_data(archive@, i),
                tar_is_bin(bin@),
            ),
            r,
        ),
{
    let (names, err) = read_tar_gz_paths(archive);
    let ghost pn = tar_gz_paths(archive@);
    let ghost dataf = |i: nat| tar_gz_data(archive@, i);
    assert(pn.0 == texts(names@) && pn.1 == opt_string(err));
    match find_binary(&names, bin, false) {
        Some(i) => {
            assert(first_match(pn.0, tar_is_bin(bin@)) == Some(i as nat));
            let got = read_tar_gz_data(archive, i);
            assert(dataf(i as nat) == tar_gz_data(archive@, i as nat));
            match got {
                Ok(d) => Ok(d),
                Err(e) => Err(ExtractError::Archive(e)),
            }
        },
        None => match err {
            Some(e) => Err(ExtractError::Archive(e)),
            None => Err(ExtractError::NotFound),
        },
    }
}

/// The program `bin` from the zip release `archive`: the content of the
/// first entry whose name ends with `bin`. Entries after it are not read.
pub fn binary_from_zip(archive: &[u8], bin: &str) -> (r: Result<Vec<u8>, ExtractError>)
    ensures
        extract_outcome(
            pick_binary(
                zip_names(archive@).0,
                zip_names(archive@).1,
                |i: nat| zip_data(archive@, i),
                zip_is_bin(bin@),
            ),
            r,
        ),
{
    let (names, err) = read_zip_names(archive);
    let ghost pn = zip_names(archive@);
    let ghost dataf = |i: nat| zip_data(archive@, i);
    assert(pn.0 == texts(names@) && pn.1 == opt_string(err));
    match find_binary(&names, bin, true) {
        Some(i) => {
            assert(first_match(pn.0, zip_is_bin(bin@)) == Some(i as nat));
            let got = read_zip_data(archive, i);
            assert(dataf(i as nat) == zip_data(archive@, i as nat));
            match got {
                Ok(d) => Ok(d),
                Err(e) => Err(ExtractError::Archive(e)),
            }
        },
        None => match err {
            Some(e) => Err(ExtractError::Archive(e)),
            None => Err(ExtractError::NotFound),
        },
    }
}

} // verus!
