//! `da init`: keeping `.da/` out of git so secrets are not committed.

use vstd::prelude::*;
use crate::text::{chars_eq, chars_of, lines, lines_of, next_newline, push_str, strip_cr, trim, trim_spec, lemma_next_newline};

verus! {

/// The `.gitignore` line that keeps the configuration folder out of git.
pub const DA_ENTRY: &'static str = ".da/";

/// Some line of `s`, trimmed of whitespace, is `.da/`.
pub open spec fn ignores_da(s: Seq<char>) -> bool {
    exists|i: int| 0 <= i < lines_of(s).len() && trim_spec(#[trigger] lines_of(s)[i]) == DA_ENTRY@
}

/// `s` with `.da/` appended as a line of its own (after a newline, when `s`
/// is not empty and does not end with one).
pub open spec fn with_da_entry(s: Seq<char>) -> Seq<char> {
    let base = if s.len() > 0 && s.last() != '\n' { s.push('\n') } else { s };
    base + ".da/\n"@
}

/// The new `.gitignore` text for the current text `current`: none when a line
/// already names `.da/`, else `current` with `.da/` appended.
pub open spec fn gitignore_update_spec(current: Seq<char>) -> Option<Seq<char>> {
    if ignores_da(current) {
        None
    } else {
        Some(with_da_entry(current))
    }
}

/// What `.gitignore` must become so that it ignores `.da/`: `None` when it
/// already does.
pub fn gitignore_update(current: &str) -> (r: Option<String>)
    ensures
        match r {
            Some(t) => gitignore_update_spec(current@) == Some(t@),
            None => gitignore_update_spec(current@) is None,
        },
{
    let ls = lines(current);
    let entry = chars_of(DA_ENTRY);
    let ghost lv = lines_of(current@);
    let mut i: usize = 0;
    while i < ls.len()
        invariant
            i <= ls.len(),
            ls@.map_values(|l: String| l@) == lv,
            lv == lines_of(current@),
            entry@ == DA_ENTRY@,
            forall|k: int| 0 <= k < i ==> trim_spec(#[trigger] lv[k]) != DA_ENTRY@,
        decreases ls.len() - i,
    {
        let t = trim(ls[i].as_str());
        let tv = chars_of(t.as_str());
        assert(lv[i as int] == ls@[i as int]@);
        if chars_eq(&tv, &entry) {
            return None;
        }
        i = i + 1;
    }
    let v = chars_of(current);
    let mut out = String::new();
    push_str(&mut out, current);
    if v.len() > 0 && v[v.len() - 1] != '\n' {
        crate::text::push_char(&mut out, '\n');
    }
    push_str(&mut out, ".da/\n");
    assert(out@ =~= with_da_entry(current@));
    Some(out)
}

proof fn lemma_next_newline_append(t: Seq<char>, u: Seq<char>, i: int)
    requires
        0 <= i <= t.len(),
        next_newline(t, i) < t.len(),
    ensures
        next_newline(t + u, i) == next_newline(t, i),
    decreases t.len() - i,
{
    let s = t + u;
    if t[i] != '\n' {
        lemma_next_newline_append(t, u, i + 1);
    }
}

proof fn lemma_next_newline_none(t: Seq<char>, i: int)
    requires
        0 <= i <= t.len(),
        forall|k: int| i <= k < t.len() ==> t[k] != '\n',
    ensures
        next_newline(t, i) == t.len(),
    decreases t.len() - i,
{
    if i < t.len() {
        lemma_next_newline_none(t, i + 1);
    }
}

/// The lines of a text that ends with a newline, followed by more text, are
/// the lines of the first part followed by those of the second.
proof fn lemma_lines_append(t: Seq<char>, u: Seq<char>)
    requires
        t.len() == 0 || t.last() == '\n',
    ensures
        lines_of(t + u) == lines_of(t) + lines_of(u),
    decreases t.len(),
{
    if t.len() == 0 {
        assert(t + u =~= u);
        assert(lines_of(t) =~= seq![]);
        assert(lines_of(t + u) =~= lines_of(t) + lines_of(u));
    } else {
        let s = t + u;
        lemma_next_newline(t, 0);
        if next_newline(t, 0) >= t.len() {
            lemma_next_newline_none(t, 0);
            assert(t[t.len() - 1] == '\n');
            assert(false);
        }
        let j = next_newline(t, 0);
        lemma_next_newline_append(t, u, 0);
        assert(next_newline(s, 0) == j);
        assert(s.subrange(0, j) =~= t.subrange(0, j));
        let t2 = t.subrange(j + 1, t.len() as int);
        assert(s.subrange(j + 1, s.len() as int) =~= t2 + u);
        if t2.len() > 0 {
            assert(t2.last() == t.last());
        }
        lemma_lines_append(t2, u);
        assert(lines_of(s) =~= seq![strip_cr(t.subrange(0, j))] + lines_of(t2 + u));
        assert(lines_of(t) =~= seq![strip_cr(t.subrange(0, j))] + lines_of(t2));
    }
}

/// Running `da init` twice adds `.da/` once: the updated `.gitignore`
/// already ignores `.da/`, so a second update changes nothing.
pub proof fn law_gitignore_update_idempotent(current: Seq<char>)
    ensures
        gitignore_update_spec(current) matches Some(t) ==> gitignore_update_spec(t) is None,
{
    if !ignores_da(current) {
        let base = if current.len() > 0 && current.last() != '\n' { current.push('\n') } else { current };
        let t = with_da_entry(current);
        reveal_strlit(".da/\n");
        reveal_strlit(".da/");
        let e = ".da/\n"@;
        assert(t == base + e);
        if base.len() > 0 {
            assert(base.last() == '\n');
        }
        lemma_lines_append(base, e);
        assert(e =~= seq!['.', 'd', 'a', '/', '\n']);
        assert(next_newline(e, 4) == 4);
        assert(next_newline(e, 3) == 4);
        assert(next_newline(e, 2) == 4);
        assert(next_newline(e, 1) == 4);
        assert(next_newline(e, 0) == 4);
        assert(e.subrange(5, 5) =~= seq![]);
        assert(lines_of(e.subrange(5, 5)) =~= seq![]);
        let line = e.subrange(0, 4);
        assert(line =~= DA_ENTRY@);
        assert(strip_cr(line) == line);
        assert(lines_of(e) =~= seq![line]);
        let k = lines_of(base).len() as int;
        assert(lines_of(t)[k] == line);
        assert(trim_spec(line) == line) by {
            assert(!crate::text::is_ws(line[0]));
            assert(line.last() == '/');
            assert(!crate::text::is_ws(line.last()));
        }
        assert(trim_spec(lines_of(t)[k]) == DA_ENTRY@);
    }
}

/// Updating never drops anything: the new `.gitignore` starts with the old
/// text.
pub proof fn law_gitignore_update_keeps_text(current: Seq<char>)
    ensures
        gitignore_update_spec(current) matches Some(t) ==> t.subrange(0, current.len() as int) == current,
{
    if !ignores_da(current) {
        let t = with_da_entry(current);
        assert(t.subrange(0, current.len() as int) =~= current);
    }
}


/// A `.gitignore` that already lists `.da/` is left alone: when any of its
/// lines, wherever it stands, reads `.da/` once trimmed, nothing is written.
pub proof fn law_listed_entry_is_kept(current: Seq<char>, i: int)
    requires
        0 <= i < lines_of(current).len(),
        trim_spec(lines_of(current)[i]) == DA_ENTRY@,
    ensures
        gitignore_update_spec(current) is None,
{
    assert(ignores_da(current));
}

/// A `.gitignore` that lists no `.da/` line gets one: the update is its text,
/// a newline when it does not end with one, then `.da/` and a newline.
pub proof fn law_missing_entry_is_added(current: Seq<char>)
    requires
        forall|i: int| 0 <= i < lines_of(current).len() ==> trim_spec(#[trigger] lines_of(current)[i]) != DA_ENTRY@,
    ensures
        gitignore_update_spec(current) matches Some(t) && t == (if current.len() > 0 && current.last() != '\n' {
            current + "\n.da/\n"@
        } else {
            current + ".da/\n"@
        }),
{
    reveal_strlit(".da/\n");
    reveal_strlit("\n.da/\n");
    assert(!ignores_da(current));
    if current.len() > 0 && current.last() != '\n' {
        assert(current.push('\n') + ".da/\n"@ =~= current + "\n.da/\n"@);
    }
}

} // verus!
