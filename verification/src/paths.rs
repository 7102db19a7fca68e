//! Unix path text: joining a path onto a base (`Path::join`) and the final
//! name of a path (`Path::file_name`).

use vstd::prelude::*;
use crate::text::{chars_of, has_suffix, push_str, string_from_range};

verus! {

/// `base.join(p)` on Unix: an absolute `p` replaces `base`; otherwise `p` is
/// appended, with a `/` between when `base` is non-empty and does not end
/// with one.
pub open spec fn join_spec(base: Seq<char>, p: Seq<char>) -> Seq<char> {
    if p.len() > 0 && p[0] == '/' {
        p
    } else if base.len() > 0 && base.last() != '/' {
        base + seq!['/'] + p
    } else {
        base + p
    }
}

/// `base` joined with `p` (`Path::join`).
pub fn join(base: &str, p: &str) -> (r: String)
    ensures
        r@ == join_spec(base@, p@),
{
    let bv = chars_of(base);
    let pv = chars_of(p);
    let mut r = String::new();
    if pv.len() > 0 && pv[0] == '/' {
        push_str(&mut r, p);
        assert(r@ =~= p@);
        return r;
    }
    push_str(&mut r, base);
    if bv.len() > 0 && bv[bv.len() - 1] != '/' {
        crate::text::push_char(&mut r, '/');
    }
    push_str(&mut r, p);
    assert(r@ =~= join_spec(base@, p@));
    r
}

/// The index of the last `/` in `p[..end]`, or `-1`.
pub open spec fn last_slash(p: Seq<char>, end: int) -> int
    decreases end,
{
    if end <= 0 {
        -1
    } else if p[end - 1] == '/' {
        end - 1
    } else {
        last_slash(p, end - 1)
    }
}

pub proof fn lemma_last_slash(p: Seq<char>, end: int)
    requires
        0 <= end <= p.len(),
    ensures
        -1 <= last_slash(p, end) < end,
        last_slash(p, end) >= 0 ==> p[last_slash(p, end)] == '/',
        forall|k: int| last_slash(p, end) < k < end ==> p[k] != '/',
    decreases end,
{
    if end > 0 && p[end - 1] != '/' {
        lemma_last_slash(p, end - 1);
    }
}

/// The last `/` of `p[..end]` is at `k` when `p[k]` is a `/` and none follows
/// it before `end`.
pub proof fn lemma_last_slash_at(p: Seq<char>, k: int, end: int)
    requires
        0 <= k < end <= p.len(),
        p[k] == '/',
        forall|i: int| k < i < end ==> p[i] != '/',
    ensures
        last_slash(p, end) == k,
    decreases end,
{
    if end - 1 > k {
        lemma_last_slash_at(p, k, end - 1);
    }
}

/// A path segment that names something (neither empty nor `.`).
pub open spec fn names_entry(seg: Seq<char>) -> bool {
    seg.len() > 0 && seg != seq!['.']
}

/// The last segment of `p[..end]` (split at `/`) that names an entry, or the
/// empty text when there is none.
pub open spec fn last_component(p: Seq<char>, end: int) -> Seq<char>
    decreases end + 1,
{
    if end < 0 || end > p.len() {
        seq![]
    } else {
        let j = last_slash(p, end);
        let seg = p.subrange(j + 1, end);
        if names_entry(seg) {
            seg
        } else if j < 0 {
            seq![]
        } else {
            proof {
                lemma_last_slash(p, end);
            }
            last_component(p, j)
        }
    }
}

/// The final name of the path `p` (`Path::file_name` on Unix): its last
/// component when that is a plain name, and nothing when the path is empty,
/// is `/`, or ends in `..`.
pub open spec fn file_name_spec(p: Seq<char>) -> Option<Seq<char>> {
    let c = last_component(p, p.len() as int);
    if c.len() == 0 || c == seq!['.', '.'] {
        None
    } else {
        Some(c)
    }
}

fn segment_names_entry(v: &Vec<char>, from: usize, to: usize) -> (b: bool)
    requires
        from <= to <= v.len(),
    ensures
        b == names_entry(v@.subrange(from as int, to as int)),
{
    let ghost seg = v@.subrange(from as int, to as int);
    if from == to {
        return false;
    }
    if to - from == 1 && v[from] == '.' {
        assert(seg =~= seq!['.']);
        return false;
    }
    assert(seg != seq!['.']) by {
        if seg == seq!['.'] {
            assert(seg.len() == 1 && seg[0] == v@[from as int]);
        }
    }
    true
}

/// The final name of the path `p` (`Path::file_name`).
pub fn file_name(p: &str) -> (r: Option<String>)
    ensures
        match r {
            Some(n) => file_name_spec(p@) == Some(n@),
            None => file_name_spec(p@) is None,
        },
{
    let v = chars_of(p);
    let mut end: usize = v.len();
    loop
        invariant
            end <= v.len(),
            v@ == p@,
            last_component(v@, v.len() as int) == last_component(v@, end as int),
        decreases end,
    {
        let mut j: usize = end;
        while j > 0 && v[j - 1] != '/'
            invariant
                j <= end <= v.len(),
                forall|k: int| j <= k < end ==> v@[k] != '/',
                last_slash(v@, end as int) == last_slash(v@, j as int),
            decreases j,
        {
            j = j - 1;
        }
        proof {
            lemma_last_slash(v@, end as int);
        }
        let start: usize = j;
        let ghost ls = last_slash(v@, end as int);
        assert(ls == start - 1);
        if segment_names_entry(&v, start, end) {
            let seg = string_from_range(&v, start, end);
            let sv = chars_of(seg.as_str());
            if sv.len() == 2 && sv[0] == '.' && sv[1] == '.' {
                assert(sv@ =~= seq!['.', '.']);
                return None;
            }
            assert(sv@ != seq!['.', '.']) by {
                if sv@ == seq!['.', '.'] {
                    assert(sv@[0] == '.' && sv@[1] == '.');
                }
            }
            return Some(seg);
        }
        if start == 0 {
            return None;
        }
        end = start - 1;
    }
}

/// `s` with every trailing copy of `pat` removed (`trim_end_matches(pat)`).
pub open spec fn trim_end_text(s: Seq<char>, pat: Seq<char>) -> Seq<char>
    decreases s.len(),
{
    if pat.len() > 0 && has_suffix(s, pat) {
        trim_end_text(s.subrange(0, s.len() - pat.len()), pat)
    } else {
        s
    }
}

/// `s` with every trailing copy of `pat` removed.
pub fn trim_end_matches(s: &str, pat: &str) -> (r: String)
    ensures
        r@ == trim_end_text(s@, pat@),
{
    let v = chars_of(s);
    let pv = chars_of(pat);
    let mut end: usize = v.len();
    assert(v@.subrange(0, v.len() as int) =~= v@);
    while pv.len() > 0 && pv.len() <= end && suffix_at(&v, end, &pv)
        invariant
            end <= v.len(),
            trim_end_text(s@, pat@) == trim_end_text(v@.subrange(0, end as int), pat@),
            v@ == s@,
            pv@ == pat@,
        decreases end,
    {
        assert(v@.subrange(0, end as int).subrange(0, end - pv.len()) =~= v@.subrange(0, end - pv.len()));
        end = end - pv.len();
    }
    string_from_range(&v, 0, end)
}

/// Whether `v[..end]` ends with `p`.
fn suffix_at(v: &Vec<char>, end: usize, p: &Vec<char>) -> (b: bool)
    requires
        end <= v.len(),
    ensures
        b == has_suffix(v@.subrange(0, end as int), p@),
{
    let ghost s = v@.subrange(0, end as int);
    if p.len() > end {
        return false;
    }
    let off: usize = end - p.len();
    let mut i: usize = 0;
    while i < p.len()
        invariant
            i <= p.len() <= end <= v.len(),
            off == end - p.len(),
            s == v@.subrange(0, end as int),
            forall|k: int| 0 <= k < i ==> v@[off + k] == p@[k],
        decreases p.len() - i,
    {
        if v[off + i] != p[i] {
            assert(s.subrange(off as int, end as int)[i as int] != p@[i as int]);
            return false;
        }
        i = i + 1;
    }
    assert(s.subrange(off as int, end as int) =~= p@);
    true
}

} // verus!
