//! `.daignore` support (gitignore semantics).
//!
//! Three optional files in the project root:
//! - `.daignore`: general rules, which keep files out of the package sent
//!   (client) and keep remote files from being deleted (server).
//! - `.daignore.client`: client only, files left out of the package.
//! - `.daignore.server`: server only, remote files that are never deleted.
//!
//! General patterns apply to both sets. The patterns are matched by the
//! `ignore` crate's gitignore matcher.

use vstd::prelude::*;
use crate::text::{chars_of, has_prefix, lines, lines_of, starts_with_chars, trim_start_char_spec};

verus! {

/// The file of general rules.
pub const GENERAL: &'static str = ".daignore";

/// The file of client-only rules.
pub const CLIENT: &'static str = ".daignore.client";

/// The file of server-only rules.
pub const SERVER: &'static str = ".daignore.server";

/// The texts held by a vector of strings.
pub open spec fn texts(v: Seq<String>) -> Seq<Seq<char>> {
    crate::order::views(v)
}

/// What building a gitignore matcher rooted at `root` from the pattern lines
/// `lines` gives: the numbers of ignore and of whitelist globs, or the error
/// text.
pub uninterp spec fn gitignore_build(root: Seq<char>, lines: Seq<Seq<char>>) -> Result<(u64, u64), Seq<char>>;

/// Whether the matcher built from `root` and `lines` ignores the file `path`
/// or one of its parent directories.
pub uninterp spec fn gitignore_ignores(root: Seq<char>, lines: Seq<Seq<char>>, path: Seq<char>) -> bool;

/// Builds a gitignore matcher (`GitignoreBuilder::new`, `add_line` for each
/// line, `build`) and reports its glob counts (`num_ignores`,
/// `num_whitelists`) or the first error's text. The contract names the
/// outcome `gitignore_build` of the root and the lines, and states what the
/// source shows for no lines: `build` of a builder without globs gives the
/// empty matcher.
#[verifier::external_body]
fn compile_patterns(root: &str, lines: &Vec<String>) -> (r: Result<(u64, u64), String>)
    ensures
        r is Ok || lines@.len() > 0,
        r matches Ok(c) ==> (lines@.len() == 0 ==> c.0 == 0 && c.1 == 0),
        match r {
            Ok(c) => gitignore_build(root@, texts(lines@)) == Ok::<(u64, u64), Seq<char>>(c),
            Err(e) => gitignore_build(root@, texts(lines@)) == Err::<(u64, u64), Seq<char>>(e@),
        },
{
    let mut b = ::ignore::gitignore::GitignoreBuilder::new(root);
    for line in lines.iter() {
        if let Err(e) = b.add_line(None, line) {
            return Err(e.to_string());
        }
    }
    match b.build() {
        Ok(g) => Ok((g.num_ignores(), g.num_whitelists())),
        Err(e) => Err(e.to_string()),
    }
}

/// `p` without one leading `./`.
pub open spec fn strip_dot_slash(p: Seq<char>) -> Seq<char> {
    if has_prefix(p, seq!['.', '/']) {
        p.subrange(2, p.len() as int)
    } else {
        p
    }
}

/// `r` names the current directory as a path (`.`, `./`, `./.`, ...).
pub open spec fn is_cur_dir(r: Seq<char>) -> bool {
    &&& r.len() > 0
    &&& r[0] == '.'
    &&& forall|i: int| 0 <= i < r.len() ==> (r[i] == '.' || r[i] == '/')
    &&& forall|i: int| 0 <= i < r.len() - 1 ==> !(#[trigger] r[i] == '.' && r[i + 1] == '.')
}

/// The path the matcher built at `root` tests for `path`: `path` without a
/// leading `./`, and, when the root is not the current directory and `path`
/// has a directory part, without the root as byte prefix and one `/` after it.
pub open spec fn matcher_path(root: Seq<char>, path: Seq<char>) -> Seq<char> {
    let r = strip_dot_slash(root);
    let p = strip_dot_slash(path);
    if !is_cur_dir(r) && p.contains('/') && has_prefix(p, r) {
        let q = p.subrange(r.len() as int, p.len() as int);
        if has_prefix(q, seq!['/']) {
            q.drop_first()
        } else {
            q
        }
    } else {
        p
    }
}

/// `path` might be rooted, or carry a drive or network prefix, on a system
/// that reads `\` as a separator and `X:` as a drive (Windows), whatever the
/// root: it holds a `\`, or a `:` right before a `/`, or a `:` as its second
/// character (a drive), or starts with `/` once a leading `./` is removed.
pub open spec fn foreign_rooted(path: Seq<char>) -> bool {
    ||| path.contains('\\')
    ||| (path.len() >= 2 && path[1] == ':')
    ||| exists|i: int| 0 <= i < path.len() - 1 && #[trigger] path[i] == ':' && path[i + 1] == '/'
    ||| has_prefix(strip_dot_slash(path), seq!['/'])
}

/// The matcher at `root`, when it holds any glob, may stop the program on
/// `path`: `matched_path_or_any_parents` asserts that the path it tests is
/// not rooted. On Unix the path it tests is `matcher_path`, which must not
/// start with `/`; elsewhere the path is split into components, and every
/// path that could be rooted or prefixed there is counted as stopping too.
pub open spec fn match_stops(root: Seq<char>, path: Seq<char>) -> bool {
    let m = matcher_path(root, path);
    (m.len() > 0 && m[0] == '/') || foreign_rooted(path)
}

/// The number of globs of a matcher that builds.
pub open spec fn glob_count(b: Result<(u64, u64), Seq<char>>) -> nat {
    match b {
        Ok(c) => (c.0 + c.1) as nat,
        Err(_) => 0,
    }
}

/// The number of ignore globs of a matcher that builds.
pub open spec fn ignore_count(b: Result<(u64, u64), Seq<char>>) -> nat {
    match b {
        Ok(c) => c.0 as nat,
        Err(_) => 0,
    }
}

/// Builds the matcher rooted at `root` from `lines` and tells whether it
/// ignores `path` or one of its parents
/// (`matched_path_or_any_parents(path, false).is_ignore()`). The contract names
/// the answer `gitignore_ignores` of the root, the lines and the path, and
/// states what the source shows for a matcher without ignore globs (no globs,
/// or only whitelist ones): it ignores nothing.
#[verifier::external_body]
fn patterns_ignore(root: &str, lines: &Vec<String>, path: &str) -> (b: bool)
    requires
        gitignore_build(root@, texts(lines@)) is Ok,
        glob_count(gitignore_build(root@, texts(lines@))) > 0 ==> !match_stops(root@, path@),
    ensures
        b == gitignore_ignores(root@, texts(lines@), path@),
        ignore_count(gitignore_build(root@, texts(lines@))) == 0 ==> !b,
{
    let mut builder = ::ignore::gitignore::GitignoreBuilder::new(root);
    for line in lines.iter() {
        let _ = builder.add_line(None, line);
    }
    let g = builder.build().expect("patterns compiled before");
    g.matched_path_or_any_parents(path, false).is_ignore()
}

/// The pattern lines of one `.daignore*` file with text `t`: its lines, the
/// first one without leading byte-order marks.
pub open spec fn file_rules(t: Seq<char>) -> Seq<Seq<char>> {
    let ls = lines_of(t);
    if ls.len() > 0 {
        ls.update(0, trim_start_char_spec(ls[0], '\u{feff}'))
    } else {
        ls
    }
}

/// The pattern lines of an optional file.
pub open spec fn opt_rules(f: Option<Seq<char>>) -> Seq<Seq<char>> {
    match f {
        Some(t) => file_rules(t),
        None => seq![],
    }
}

/// Every line of a `.daignore*` file is a rule: a file has as many rules as
/// lines, each line after the first is its rule unchanged, and the first is
/// its rule without leading byte-order marks.
pub proof fn law_every_line_is_a_rule(t: Seq<char>)
    ensures
        file_rules(t).len() == lines_of(t).len(),
        forall|i: int| 0 < i < lines_of(t).len() ==> #[trigger] file_rules(t)[i] == lines_of(t)[i],
        lines_of(t).len() > 0 ==> file_rules(t)[0] == trim_start_char_spec(lines_of(t)[0], '\u{feff}'),
{
}

/// The rules of two files read together are all the lines of the first, then
/// all the lines of the second (as the client rules join `.daignore` and
/// `.daignore.client`, and the server rules `.daignore` and
/// `.daignore.server`).
pub proof fn law_joined_rules_hold_every_line(first: Seq<char>, second: Seq<char>)
    ensures
        ({
            let r = opt_rules(Some(first)) + opt_rules(Some(second));
            let a = lines_of(first);
            let b = lines_of(second);
            &&& r.len() == a.len() + b.len()
            &&& forall|i: int| 0 < i < a.len() ==> #[trigger] r[i] == a[i]
            &&& forall|j: int| 0 < j < b.len() ==> #[trigger] r[a.len() + j] == b[j]
        }),
{
    law_every_line_is_a_rule(first);
    law_every_line_is_a_rule(second);
}

/// The view of an optional text.
pub open spec fn opt_view(f: Option<&str>) -> Option<Seq<char>> {
    match f {
        Some(t) => Some(t@),
        None => None,
    }
}

/// The names of the files that were present, in the order general, client,
/// server.
pub open spec fn loaded_names(general: bool, client: bool, server: bool) -> Seq<Seq<char>> {
    (if general { seq![GENERAL@] } else { seq![] })
        + (if client { seq![CLIENT@] } else { seq![] })
        + (if server { seq![SERVER@] } else { seq![] })
}

/// Why the `.daignore*` rules could not be used.
#[derive(Debug)]
pub enum IgnoreError {
    /// The client rules (general and client files) do not compile.
    ClientPatterns(String),
    /// The server rules (general and server files) do not compile.
    ServerPatterns(String),
}

/// Ignore matchers resolved from the `.daignore*` files.
pub struct DaIgnore {
    root: String,
    client: Vec<String>,
    server: Vec<String>,
    client_any: bool,
    server_any: bool,
    server_ignores: u64,
    /// Which `.daignore*` files were present.
    pub loaded: Vec<String>,
}

fn trim_leading_bom(s: &String) -> (r: String)
    ensures
        r@ == trim_start_char_spec(s@, '\u{feff}'),
{
    let v = chars_of(s.as_str());
    let mut i: usize = 0;
    assert(v@.subrange(0, v.len() as int) =~= v@);
    while i < v.len() && v[i] == '\u{feff}'
        invariant
            i <= v.len(),
            trim_start_char_spec(v@, '\u{feff}') == trim_start_char_spec(
                v@.subrange(i as int, v.len() as int),
                '\u{feff}',
            ),
        decreases v.len() - i,
    {
        proof {
            let t = v@.subrange(i as int, v.len() as int);
            assert(t.drop_first() =~= v@.subrange(i + 1, v.len() as int));
        }
        i = i + 1;
    }
    proof {
        let t = v@.subrange(i as int, v.len() as int);
        if i < v.len() {
            assert(t[0] == v@[i as int]);
        }
        if i == 0 {
            assert(t =~= v@);
        }
    }
    crate::text::string_from_range(&v, i, v.len())
}

fn rules_of(t: &str) -> (r: Vec<String>)
    ensures
        texts(r@) == file_rules(t@),
{
    let mut ls = lines(t);
    if ls.len() > 0 {
        let first = trim_leading_bom(&ls[0]);
        ls.set(0, first);
        assert(texts(ls@) =~= file_rules(t@));
    }
    ls
}

fn append_rules(acc: &mut Vec<String>, more: Vec<String>)
    ensures
        texts(final(acc)@) == texts(old(acc)@) + texts(more@),
{
    let mut more = more;
    let ghost m0 = more@;
    let ghost a0 = acc@;
    acc.append(&mut more);
    assert(texts(acc@) =~= texts(a0) + texts(m0));
}

fn opt_rules_of(f: Option<&str>) -> (r: Vec<String>)
    ensures
        texts(r@) == opt_rules(opt_view(f)),
{
    match f {
        Some(t) => rules_of(t),
        None => {
            let r: Vec<String> = Vec::new();
            assert(texts(r@) =~= seq![]);
            r
        },
    }
}

fn is_cur_dir_exec(r: &Vec<char>, from: usize) -> (b: bool)
    requires
        from <= r.len(),
    ensures
        b == is_cur_dir(r@.subrange(from as int, r.len() as int)),
{
    let ghost s = r@.subrange(from as int, r.len() as int);
    if from == r.len() || r[from] != '.' {
        return false;
    }
    let mut i: usize = from;
    while i < r.len()
        invariant
            from <= i <= r.len(),
            s == r@.subrange(from as int, r.len() as int),
            forall|k: int| 0 <= k < i - from ==> (s[k] == '.' || s[k] == '/'),
            forall|k: int| 0 <= k < i - from && k + 1 < s.len() ==> !(#[trigger] s[k] == '.' && s[k + 1] == '.'),
        decreases r.len() - i,
    {
        if r[i] != '.' && r[i] != '/' {
            assert(!(s[i - from] == '.' || s[i - from] == '/'));
            return false;
        }
        if i + 1 < r.len() && r[i] == '.' && r[i + 1] == '.' {
            assert(s[i - from] == '.' && s[i - from + 1] == '.');
            return false;
        }
        i = i + 1;
    }
    true
}

pub(crate) fn is_foreign_rooted(p: &Vec<char>) -> (b: bool)
    ensures
        b == foreign_rooted(p@),
{
    let mut i: usize = 0;
    while i < p.len()
        invariant
            i <= p.len(),
            forall|k: int| 0 <= k < i ==> p@[k] != '\\',
            forall|k: int| 0 <= k < i && k < p.len() - 1 ==> !(#[trigger] p@[k] == ':' && p@[k + 1] == '/'),
        decreases p.len() - i,
    {
        if p[i] == '\\' {
            assert(p@[i as int] == '\\');
            return true;
        }
        if i + 1 < p.len() && p[i] == ':' && p[i + 1] == '/' {
            assert(p@[i as int] == ':');
            return true;
        }
        i = i + 1;
    }
    assert(!p@.contains('\\'));
    if p.len() >= 2 && p[1] == ':' {
        return true;
    }
    let starts = if p.len() >= 2 && p[0] == '.' && p[1] == '/' {
        p.len() > 2 && p[2] == '/'
    } else {
        p.len() > 0 && p[0] == '/'
    };
    proof {
        let q = strip_dot_slash(p@);
        if p.len() >= 2 && p@[0] == '.' && p@[1] == '/' {
            assert(has_prefix(p@, seq!['.', '/'])) by {
                assert(p@.subrange(0, 2) =~= seq!['.', '/']);
            }
            if p.len() > 2 {
                assert(q[0] == p@[2]);
                if has_prefix(q, seq!['/']) {
                    assert(q.subrange(0, 1)[0] == q[0]);
                }
                if p@[2] == '/' {
                    assert(q.subrange(0, 1) =~= seq!['/']);
                }
            }
        } else {
            assert(!has_prefix(p@, seq!['.', '/'])) by {
                if has_prefix(p@, seq!['.', '/']) {
                    assert(p@.subrange(0, 2)[0] == p@[0] && p@.subrange(0, 2)[1] == p@[1]);
                }
            }
            assert(q == p@);
            if p.len() > 0 {
                if has_prefix(q, seq!['/']) {
                    assert(q.subrange(0, 1)[0] == q[0]);
                }
                if p@[0] == '/' {
                    assert(q.subrange(0, 1) =~= seq!['/']);
                }
            }
        }
    }
    starts
}

fn contains_slash(p: &Vec<char>, from: usize) -> (b: bool)
    requires
        from <= p.len(),
    ensures
        b == p@.subrange(from as int, p.len() as int).contains('/'),
{
    let ghost s = p@.subrange(from as int, p.len() as int);
    let mut i: usize = from;
    while i < p.len()
        invariant
            from <= i <= p.len(),
            s == p@.subrange(from as int, p.len() as int),
            forall|k: int| 0 <= k < i - from ==> s[k] != '/',
        decreases p.len() - i,
    {
        if p[i] == '/' {
            assert(s[i - from] == '/');
            return true;
        }
        i = i + 1;
    }
    false
}

fn prefix_at(p: &Vec<char>, from: usize, r: &Vec<char>, rfrom: usize) -> (b: bool)
    requires
        from <= p.len(),
        rfrom <= r.len(),
    ensures
        b == has_prefix(p@.subrange(from as int, p.len() as int), r@.subrange(rfrom as int, r.len() as int)),
{
    let ghost s = p@.subrange(from as int, p.len() as int);
    let ghost t = r@.subrange(rfrom as int, r.len() as int);
    if r.len() - rfrom > p.len() - from {
        return false;
    }
    let mut i: usize = 0;
    while i < r.len() - rfrom
        invariant
            i <= r.len() - rfrom <= p.len() - from,
            s == p@.subrange(from as int, p.len() as int),
            t == r@.subrange(rfrom as int, r.len() as int),
            forall|k: int| 0 <= k < i ==> s[k] == t[k],
        decreases r.len() - rfrom - i,
    {
        if p[from + i] != r[rfrom + i] {
            assert(s.subrange(0, t.len() as int)[i as int] != t[i as int]);
            return false;
        }
        i = i + 1;
    }
    assert(s.subrange(0, t.len() as int) =~= t);
    true
}

/// Whether the matcher at `root` would stop the program on `path`.
fn stops_on(root: &str, path: &str) -> (b: bool)
    ensures
        b == match_stops(root@, path@),
{
    let rv = chars_of(root);
    let pv = chars_of(path);
    let ds = chars_of("./");
    proof {
        reveal_strlit("./");
        assert("./"@ =~= seq!['.', '/']);
    }
    let r0: usize = if starts_with_chars(&rv, &ds) { 2 } else { 0 };
    let p0: usize = if starts_with_chars(&pv, &ds) { 2 } else { 0 };
    let ghost r = rv@.subrange(r0 as int, rv.len() as int);
    let ghost p = pv@.subrange(p0 as int, pv.len() as int);
    assert(r == strip_dot_slash(root@)) by {
        if r0 == 0 {
            assert(r =~= rv@);
        }
    }
    assert(p == strip_dot_slash(path@)) by {
        if p0 == 0 {
            assert(p =~= pv@);
        }
    }
    let mut start: usize = p0;
    if !is_cur_dir_exec(&rv, r0) && contains_slash(&pv, p0) && prefix_at(&pv, p0, &rv, r0) {
        start = p0 + (rv.len() - r0);
        let ghost q = pv@.subrange(start as int, pv.len() as int);
        assert(q =~= p.subrange(r.len() as int, p.len() as int));
        if start < pv.len() && pv[start] == '/' {
            assert(has_prefix(q, seq!['/'])) by {
                assert(q.subrange(0, 1) =~= seq!['/']);
            }
            start = start + 1;
            assert(pv@.subrange(start as int, pv.len() as int) =~= q.drop_first());
        } else {
            assert(!has_prefix(q, seq!['/'])) by {
                if has_prefix(q, seq!['/']) {
                    assert(q.subrange(0, 1)[0] == '/');
                }
            }
        }
    }
    let ghost m = pv@.subrange(start as int, pv.len() as int);
    assert(m == matcher_path(root@, path@));
    if start < pv.len() {
        assert(m[0] == pv@[start as int]);
    }
    (start < pv.len() && pv[start] == '/') || is_foreign_rooted(&pv)
}

impl DaIgnore {
    /// The directory the rules are matched relative to.
    pub closed spec fn root_view(&self) -> Seq<char> {
        self.root@
    }

    /// The client rules: general lines, then client lines.
    pub closed spec fn client_rules(&self) -> Seq<Seq<char>> {
        texts(self.client@)
    }

    /// The server rules: general lines, then server lines.
    pub closed spec fn server_rules(&self) -> Seq<Seq<char>> {
        texts(self.server@)
    }

    /// The names of the `.daignore*` files that were present.
    pub closed spec fn loaded_view(&self) -> Seq<Seq<char>> {
        texts(self.loaded@)
    }

    /// Both rule sets compile, and the stored glob counts are theirs.
    pub closed spec fn wf(&self) -> bool {
        &&& gitignore_build(self.root@, texts(self.client@)) is Ok
        &&& gitignore_build(self.root@, texts(self.server@)) is Ok
        &&& self.client_any == (glob_count(gitignore_build(self.root@, texts(self.client@))) > 0)
        &&& self.server_any == (glob_count(gitignore_build(self.root@, texts(self.server@))) > 0)
        &&& self.server_ignores == ignore_count(gitignore_build(self.root@, texts(self.server@)))
    }

    /// The client matcher can test `path` without stopping the program.
    pub open spec fn client_path_ok(&self, path: Seq<char>) -> bool {
        glob_count(gitignore_build(self.root_view(), self.client_rules())) > 0 ==> !match_stops(
            self.root_view(),
            path,
        )
    }

    /// The server matcher can test `path` without stopping the program.
    pub open spec fn server_path_ok(&self, path: Seq<char>) -> bool {
        glob_count(gitignore_build(self.root_view(), self.server_rules())) > 0 ==> !match_stops(
            self.root_view(),
            path,
        )
    }

    /// Loads the `.daignore*` rules of `root`, given the text of each file
    /// that exists there (`None` for a missing file). Missing files ignore
    /// nothing.
    pub fn load(root: &str, general: Option<&str>, client: Option<&str>, server: Option<&str>) -> (r: Result<DaIgnore, IgnoreError>)
        ensures
            ({
                let cr = opt_rules(opt_view(general)) + opt_rules(opt_view(client));
                let sr = opt_rules(opt_view(general)) + opt_rules(opt_view(server));
                match r {
                    Ok(d) => {
                        &&& d.wf()
                        &&& d.root_view() == root@
                        &&& d.client_rules() == cr
                        &&& d.server_rules() == sr
                        &&& d.loaded_view() == loaded_names(general is Some, client is Some, server is Some)
                        &&& gitignore_build(root@, cr) is Ok
                        &&& gitignore_build(root@, sr) is Ok
                    },
                    Err(IgnoreError::ClientPatterns(e)) => gitignore_build(root@, cr) == Err::<(u64, u64), Seq<char>>(e@),
                    Err(IgnoreError::ServerPatterns(e)) => {
                        &&& gitignore_build(root@, cr) is Ok
                        &&& gitignore_build(root@, sr) == Err::<(u64, u64), Seq<char>>(e@)
                    },
                }
            }),
            general is None && client is None ==> !(r matches Err(IgnoreError::ClientPatterns(_))),
            general is None && client is None ==> (r matches Ok(d) ==> glob_count(gitignore_build(root@, d.client_rules())) == 0),
            general is None && server is None ==> !(r matches Err(IgnoreError::ServerPatterns(_))),
            general is None && server is None ==> (r matches Ok(d) ==> glob_count(gitignore_build(root@, d.server_rules())) == 0),
    {
        let mut loaded: Vec<String> = Vec::new();
        if general.is_some() {
            loaded.push(GENERAL.to_owned());
        }
        if client.is_some() {
            loaded.push(CLIENT.to_owned());
        }
        if server.is_some() {
            loaded.push(SERVER.to_owned());
        }
        assert(texts(loaded@) =~= loaded_names(general is Some, client is Some, server is Some));
        let mut client_lines = opt_rules_of(general);
        append_rules(&mut client_lines, opt_rules_of(client));
        let mut server_lines = opt_rules_of(general);
        append_rules(&mut server_lines, opt_rules_of(server));
        let (ci, cw) = match compile_patterns(root, &client_lines) {
            Ok(c) => c,
            Err(e) => return Err(IgnoreError::ClientPatterns(e)),
        };
        let (si, sw) = match compile_patterns(root, &server_lines) {
            Ok(c) => c,
            Err(e) => return Err(IgnoreError::ServerPatterns(e)),
        };
        Ok(DaIgnore {
            root: root.to_owned(),
            client: client_lines,
            server: server_lines,
            client_any: ci > 0 || cw > 0,
            server_any: si > 0 || sw > 0,
            server_ignores: si,
            loaded,
        })
    }

    /// Whether the client matcher can test `path` without stopping the program.
    pub fn client_accepts(&self, path: &str) -> (b: bool)
        requires
            self.wf(),
        ensures
            b == self.client_path_ok(path@),
    {
        !self.client_any || !stops_on(self.root.as_str(), path)
    }

    /// Whether the server matcher can test `path` without stopping the program.
    pub fn server_accepts(&self, path: &str) -> (b: bool)
        requires
            self.wf(),
        ensures
            b == self.server_path_ok(path@),
    {
        !self.server_any || !stops_on(self.root.as_str(), path)
    }

    /// True if the relative path must be left out of the package (client).
    pub fn client_excludes(&self, rel: &str) -> (b: bool)
        requires
            self.wf(),
            self.client_path_ok(rel@),
        ensures
            b == gitignore_ignores(self.root_view(), self.client_rules(), rel@),
            ignore_count(gitignore_build(self.root_view(), self.client_rules())) == 0 ==> !b,
    {
        patterns_ignore(self.root.as_str(), &self.client, rel)
    }

    /// True if the relative path must be kept on the remote (server). Without
    /// server rules (`has_server_rules` false) nothing is kept.
    pub fn server_protects(&self, rel: &str) -> (b: bool)
        requires
            self.wf(),
            self.server_path_ok(rel@),
        ensures
            b == gitignore_ignores(self.root_view(), self.server_rules(), rel@),
            ignore_count(gitignore_build(self.root_view(), self.server_rules())) == 0 ==> !b,
    {
        patterns_ignore(self.root.as_str(), &self.server, rel)
    }

    /// Is there at least one server protection pattern?
    pub fn has_server_rules(&self) -> (b: bool)
        requires
            self.wf(),
        ensures
            b == (ignore_count(gitignore_build(self.root_view(), self.server_rules())) > 0),
    {
        self.server_ignores > 0
    }
}

} // verus!
