//! The remote side of a deploy: which remote directories may be wiped, the
//! shell command that wipes one, and the operations a transport offers.

use vstd::prelude::*;
use crate::order::views;
use crate::daignore::strip_dot_slash;
use crate::text::{chars_of, lines, lines_of, push_str, string_from_range, trim, trim_spec};

verus! {

/// Why a remote directory is refused as the target of a wipe.
#[derive(Debug, Clone, Copy, PartialEq, Eq, Structural)]
pub enum RemoteDirError {
    /// The directory is empty or only whitespace.
    Empty,
    /// The directory is the filesystem root `/`.
    Root,
}

impl RemoteDirError {
    /// The message shown to the user.
    pub fn message(&self) -> (s: String)
        ensures
            *self == RemoteDirError::Empty ==> s@ == "remote_dir vazio"@,
            *self == RemoteDirError::Root ==> s@ == "remote_dir '/' não permitido (apagaria a raiz)"@,
    {
        match self {
            RemoteDirError::Empty => "remote_dir vazio".to_owned(),
            RemoteDirError::Root => "remote_dir '/' não permitido (apagaria a raiz)".to_owned(),
        }
    }
}

/// The verdict on a remote directory: refused when it is blank once trimmed of
/// whitespace, or when it is `/` once trimmed; accepted otherwise.
pub open spec fn remote_dir_verdict(dir: Seq<char>) -> Result<(), RemoteDirError> {
    let t = trim_spec(dir);
    if t.len() == 0 {
        Err(RemoteDirError::Empty)
    } else if t == seq!['/'] {
        Err(RemoteDirError::Root)
    } else {
        Ok(())
    }
}

/// Rejects dangerous remote dirs before any delete.
pub fn validate_remote_dir(dir: &str) -> (r: Result<(), RemoteDirError>)
    ensures
        r == remote_dir_verdict(dir@),
{
    let t = trim(dir);
    let v = chars_of(t.as_str());
    if v.len() == 0 {
        return Err(RemoteDirError::Empty);
    }
    if v.len() == 1 && v[0] == '/' {
        assert(v@ =~= seq!['/']);
        return Err(RemoteDirError::Root);
    }
    assert(v@ != seq!['/']) by {
        if v@ == seq!['/'] {
            assert(v@[0] == '/');
        }
    }
    Ok(())
}

/// The shell command that deletes every entry inside `dir` (hidden ones too)
/// but not `dir` itself. The directory is quoted as one shell word, so the
/// globs expand inside it whatever characters it holds.
pub open spec fn wipe_command(dir: Seq<char>) -> Seq<char> {
    let q = shell_quote_spec(dir);
    "rm -rf "@ + q + "/* "@ + q + "/.[!.]* 2>/dev/null; true"@
}

/// The command that empties `dir` on the remote host, or why `dir` may not
/// be emptied. The command is built only for a directory that
/// `validate_remote_dir` accepts.
pub fn clean_command(dir: &str) -> (r: Result<String, RemoteDirError>)
    ensures
        match r {
            Ok(cmd) => remote_dir_verdict(dir@) is Ok && cmd@ == wipe_command(dir@),
            Err(e) => remote_dir_verdict(dir@) == Err::<(), RemoteDirError>(e),
        },
{
    match validate_remote_dir(dir) {
        Err(e) => Err(e),
        Ok(()) => {
            let q = shell_quote(dir);
            let mut cmd = String::new();
            push_str(&mut cmd, "rm -rf ");
            push_str(&mut cmd, q.as_str());
            push_str(&mut cmd, "/* ");
            push_str(&mut cmd, q.as_str());
            push_str(&mut cmd, "/.[!.]* 2>/dev/null; true");
            assert(cmd@ =~= wipe_command(dir@));
            Ok(cmd)
        },
    }
}

/// The characters of `s` with each `'` written as `'\''`.
pub open spec fn quote_body(s: Seq<char>) -> Seq<char>
    decreases s.len(),
{
    if s.len() == 0 {
        seq![]
    } else {
        let c = s.last();
        quote_body(s.drop_last()) + if c == '\'' { seq!['\'', '\\', '\'', '\''] } else { seq![c] }
    }
}

/// `s` as one shell word: in single quotes, each `'` written as `'\''`.
pub open spec fn shell_quote_spec(s: Seq<char>) -> Seq<char> {
    seq!['\''] + quote_body(s) + seq!['\'']
}

/// `s` quoted as one word for the remote shell.
pub fn shell_quote(s: &str) -> (r: String)
    ensures
        r@ == shell_quote_spec(s@),
{
    let v = chars_of(s);
    let mut r = String::new();
    crate::text::push_char(&mut r, '\'');
    let mut i: usize = 0;
    while i < v.len()
        invariant
            i <= v.len(),
            r@ == seq!['\''] + quote_body(v@.subrange(0, i as int)),
        decreases v.len() - i,
    {
        let ghost before = r@;
        if v[i] == '\'' {
            crate::text::push_char(&mut r, '\'');
            crate::text::push_char(&mut r, '\\');
            crate::text::push_char(&mut r, '\'');
            crate::text::push_char(&mut r, '\'');
        } else {
            crate::text::push_char(&mut r, v[i]);
        }
        proof {
            assert(v@.subrange(0, i + 1).drop_last() =~= v@.subrange(0, i as int));
            assert(v@.subrange(0, i + 1).last() == v@[i as int]);
        }
        assert(r@ =~= seq!['\''] + quote_body(v@.subrange(0, i + 1)));
        i = i + 1;
    }
    crate::text::push_char(&mut r, '\'');
    assert(v@.subrange(0, v.len() as int) =~= s@);
    r
}

/// The paths a remote `find . -type f` printed, given its output lines: the
/// lines that are not empty, in order, each without a leading `./`.
pub open spec fn listing_spec(ls: Seq<Seq<char>>) -> Seq<Seq<char>>
    decreases ls.len(),
{
    if ls.len() == 0 {
        seq![]
    } else {
        let rest = listing_spec(ls.drop_last());
        let l = ls.last();
        if l.len() == 0 {
            rest
        } else {
            rest.push(strip_dot_slash(l))
        }
    }
}

/// The file paths, relative to the listed directory, in the output `out` of a
/// remote `find . -type f`.
pub fn remote_listing(out: &str) -> (r: Vec<String>)
    ensures
        views(r@) == listing_spec(lines_of(out@)),
{
    let ls = lines(out);
    let ghost lv = lines_of(out@);
    assert(views(ls@) =~= lv);
    let mut r: Vec<String> = Vec::new();
    let mut i: usize = 0;
    while i < ls.len()
        invariant
            i <= ls.len(),
            views(ls@) == lv,
            views(r@) == listing_spec(lv.subrange(0, i as int)),
        decreases ls.len() - i,
    {
        let v = chars_of(ls[i].as_str());
        proof {
            assert(lv.subrange(0, i + 1).drop_last() =~= lv.subrange(0, i as int));
            assert(lv.subrange(0, i + 1).last() == ls@[i as int]@);
            assert(lv[i as int] == ls@[i as int]@);
        }
        if v.len() > 0 {
            let p = if v.len() >= 2 && v[0] == '.' && v[1] == '/' {
                assert(v@.subrange(0, 2) =~= seq!['.', '/']);
                string_from_range(&v, 2, v.len())
            } else {
                proof {
                    if v.len() >= 2 && v@.subrange(0, 2) == seq!['.', '/'] {
                        assert(v@.subrange(0, 2)[0] == v@[0] && v@.subrange(0, 2)[1] == v@[1]);
                    }
                }
                ls[i].clone()
            };
            r.push(p);
        }
        assert(views(r@) =~= listing_spec(lv.subrange(0, i + 1)));
        i = i + 1;
    }
    assert(lv.subrange(0, ls.len() as int) =~= lv);
    r
}

/// A failed operation on the remote host.
#[derive(Debug)]
pub struct RemoteError {
    /// What went wrong, for the user.
    pub message: String,
}

/// Abstraction over the remote side so the deploy pipeline is testable
/// without a live host.
pub trait Transport {
    /// Delete every entry inside `remote_dir` (not the dir itself).
    fn clean_remote_dir(&mut self, remote_dir: &str) -> Result<(), RemoteError>;

    /// Send a gzip'd tar and unpack it into `remote_dir`.
    fn upload_archive(&mut self, archive: &[u8], remote_dir: &str) -> Result<(), RemoteError>;

    /// A gzip'd tar of what `remote_dir` holds (empty when it holds nothing).
    fn download_archive(&mut self, remote_dir: &str) -> Result<Vec<u8>, RemoteError>;

    /// The files under `remote_dir`, as paths relative to it.
    fn list_remote_files(&mut self, remote_dir: &str) -> Result<Vec<String>, RemoteError>;

    /// Delete the given paths (relative to `remote_dir`).
    fn delete_remote_paths(&mut self, remote_dir: &str, paths: &[String]) -> Result<
        (),
        RemoteError,
    >;
}

} // verus!
