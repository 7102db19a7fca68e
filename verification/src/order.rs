//! Sorting by text keys in code-point order (the order `String` compares by).

use vstd::prelude::*;
use vstd::multiset::Multiset;
use crate::text::{lemma_text_lt_irreflexive, lemma_text_lt_total, lemma_text_lt_transitive, text_le, text_less, text_lt};

verus! {

broadcast use vstd::seq_lib::group_to_multiset_ensures;

/// A value sorted by a text key.
pub trait Keyed {
    /// The key.
    spec fn key(&self) -> Seq<char>;

    /// The key's characters.
    fn key_chars(&self) -> (v: Vec<char>)
        ensures
            v@ == self.key(),
    ;
}

/// `s` is in non-decreasing key order.
pub open spec fn sorted_by_key<T: Keyed>(s: Seq<T>) -> bool {
    forall|i: int, j: int| 0 <= i < j < s.len() ==> text_le(#[trigger] s[i].key(), #[trigger] s[j].key())
}

/// The views of the entries of `s`.
pub open spec fn views<T: View>(s: Seq<T>) -> Seq<T::V> {
    s.map_values(|x: T| x@)
}

/// Two sequences that are permutations of each other have views that are
/// permutations of each other.
pub proof fn lemma_views_multiset<T: View>(a: Seq<T>, b: Seq<T>)
    requires
        a.to_multiset() == b.to_multiset(),
    ensures
        views(a).to_multiset() == views(b).to_multiset(),
    decreases a.len(),
{
    if a.len() == 0 {
        assert(b.len() == 0) by {
            assert(b.len() == b.to_multiset().len());
        }
        assert(views(a) =~= views(b));
    } else {
        let x = a.last();
        let a2 = a.drop_last();
        assert(a =~= a2.push(x));
        assert(a.to_multiset().count(x) > 0) by {
            assert(a.contains(x));
        }
        assert(b.contains(x));
        let k = choose|k: int| 0 <= k < b.len() && b[k] == x;
        let b2 = b.remove(k);
        assert(b2.to_multiset() =~= b.to_multiset().remove(x));
        assert(a2.to_multiset() =~= a.to_multiset().remove(x));
        lemma_views_multiset(a2, b2);
        assert(views(a) =~= views(a2).push(x@));
        assert(views(b).remove(k) =~= views(b2));
        assert(views(b)[k] == x@);
        assert(views(b).to_multiset().count(x@) > 0) by {
            assert(views(b).contains(x@));
        }
        assert(views(b2).to_multiset() =~= views(b).to_multiset().remove(x@));
        assert(views(b).to_multiset() =~= views(b2).to_multiset().insert(x@));
    }
}

/// `text_le` is transitive.
pub proof fn lemma_text_le_transitive(a: Seq<char>, b: Seq<char>, c: Seq<char>)
    requires
        text_le(a, b),
        text_le(b, c),
    ensures
        text_le(a, c),
{
    if text_lt(a, b) && text_lt(b, c) {
        lemma_text_lt_transitive(a, b, c);
    }
}

/// Of two texts, one comes first or they are equal.
pub proof fn lemma_text_le_total(a: Seq<char>, b: Seq<char>)
    ensures
        text_le(a, b) || text_lt(b, a),
        text_lt(b, a) ==> !text_le(a, b),
{
    lemma_text_lt_total(a, b);
    lemma_text_lt_irreflexive(a);
}

/// Where an entry with key `k` goes into `s`: after the leading entries whose
/// key is not above `k`.
pub open spec fn ins_pos<T>(s: Seq<T>, key: spec_fn(T) -> Seq<char>, k: Seq<char>) -> nat
    decreases s.len(),
{
    if s.len() == 0 || text_lt(k, key(s[0])) {
        0
    } else {
        1 + ins_pos(s.drop_first(), key, k)
    }
}

/// `s` sorted by `key`, entries with equal keys in their order in `s`: each
/// entry in turn goes after those already placed whose key is not above its own.
pub open spec fn stable_sort<T>(s: Seq<T>, key: spec_fn(T) -> Seq<char>) -> Seq<T>
    decreases s.len(),
{
    if s.len() == 0 {
        seq![]
    } else {
        let o = stable_sort(s.drop_last(), key);
        o.insert(ins_pos(o, key, key(s.last())) as int, s.last())
    }
}

/// The key of a `Keyed` value, as a spec closure.
pub open spec fn key_of<T: Keyed>() -> spec_fn(T) -> Seq<char> {
    |x: T| x.key()
}

/// An index that splits `s` into entries with key not above `k` and entries
/// with key above `k` is where `k` goes.
proof fn lemma_ins_pos<T>(s: Seq<T>, key: spec_fn(T) -> Seq<char>, k: Seq<char>, p: int)
    requires
        0 <= p <= s.len(),
        forall|i: int| 0 <= i < p ==> text_le(#[trigger] key(s[i]), k),
        forall|i: int| p <= i < s.len() ==> text_lt(k, #[trigger] key(s[i])),
    ensures
        ins_pos(s, key, k) == p,
    decreases s.len(),
{
    if p > 0 {
        lemma_text_le_total(key(s[0]), k);
        let t = s.drop_first();
        assert forall|i: int| 0 <= i < p - 1 implies text_le(#[trigger] key(t[i]), k) by {
            assert(t[i] == s[i + 1]);
        }
        assert forall|i: int| p - 1 <= i < t.len() implies text_lt(k, #[trigger] key(t[i])) by {
            assert(t[i] == s[i + 1]);
        }
        lemma_ins_pos(t, key, k, p - 1);
    }
}

/// Where an entry goes is the same among the values and among their views,
/// when the key of a value is the key of its view.
proof fn lemma_ins_pos_views<T: View>(s: Seq<T>, key: spec_fn(T) -> Seq<char>, vkey: spec_fn(T::V) -> Seq<char>, k: Seq<char>)
    requires
        forall|x: T| #[trigger] key(x) == vkey(x@),
    ensures
        ins_pos(s, key, k) == ins_pos(views(s), vkey, k),
    decreases s.len(),
{
    if s.len() > 0 {
        assert(views(s)[0] == s[0]@);
        assert(views(s).drop_first() =~= views(s.drop_first()));
        lemma_ins_pos_views(s.drop_first(), key, vkey, k);
    }
}

/// Sorting commutes with taking views, when the key of a value is the key of
/// its view.
pub proof fn lemma_stable_sort_views<T: View>(s: Seq<T>, key: spec_fn(T) -> Seq<char>, vkey: spec_fn(T::V) -> Seq<char>)
    requires
        forall|x: T| #[trigger] key(x) == vkey(x@),
    ensures
        views(stable_sort(s, key)) == stable_sort(views(s), vkey),
    decreases s.len(),
{
    if s.len() > 0 {
        let o = stable_sort(s.drop_last(), key);
        assert(views(s).drop_last() =~= views(s.drop_last()));
        assert(views(s).last() == s.last()@);
        lemma_stable_sort_views(s.drop_last(), key, vkey);
        lemma_ins_pos_views(o, key, vkey, key(s.last()));
        let i = ins_pos(o, key, key(s.last())) as int;
        lemma_ins_pos_le(o, key, key(s.last()));
        assert(views(o.insert(i, s.last())) =~= views(o).insert(i, s.last()@));
    } else {
        assert(views(stable_sort(s, key)) =~= stable_sort(views(s), vkey));
    }
}

proof fn lemma_ins_pos_le<T>(s: Seq<T>, key: spec_fn(T) -> Seq<char>, k: Seq<char>)
    ensures
        ins_pos(s, key, k) <= s.len(),
    decreases s.len(),
{
    if s.len() > 0 {
        lemma_ins_pos_le(s.drop_first(), key, k);
    }
}

proof fn lemma_insert_multiset<T>(s: Seq<T>, i: int, x: T)
    requires
        0 <= i <= s.len(),
    ensures
        s.insert(i, x).to_multiset() =~= s.to_multiset().insert(x),
{
    let t = s.insert(i, x);
    assert(t.remove(i) =~= s);
    assert(t[i] == x);
    assert(t.remove(i).to_multiset() =~= t.to_multiset().remove(x));
    assert(t.to_multiset().count(x) > 0) by {
        assert(t.contains(x));
    }
}

/// The position at which `k` goes into the sorted `out`: after every entry
/// whose key is not above `k`.
fn insertion_point<T: Keyed>(out: &Vec<T>, k: &Vec<char>) -> (p: usize)
    requires
        sorted_by_key(out@),
    ensures
        p <= out.len(),
        forall|i: int| 0 <= i < p ==> text_le(#[trigger] out@[i].key(), k@),
        forall|i: int| p <= i < out.len() ==> text_lt(k@, #[trigger] out@[i].key()),
{
    let mut p: usize = 0;
    while p < out.len()
        invariant
            p <= out.len(),
            sorted_by_key(out@),
            forall|i: int| 0 <= i < p ==> text_le(#[trigger] out@[i].key(), k@),
        decreases out.len() - p,
    {
        let kp = out[p].key_chars();
        if text_less(k, &kp) {
            proof {
                assert forall|i: int| p <= i < out.len() implies text_lt(k@, #[trigger] out@[i].key()) by {
                    if i > p {
                        assert(text_le(out@[p as int].key(), out@[i].key()));
                        if text_lt(out@[p as int].key(), out@[i].key()) {
                            lemma_text_lt_transitive(k@, out@[p as int].key(), out@[i].key());
                        }
                    }
                }
            }
            return p;
        }
        proof {
            lemma_text_le_total(kp@, k@);
        }
        p = p + 1;
    }
    p
}

/// Sorting keeps every entry: the sorted sequence is a permutation.
pub proof fn lemma_stable_sort_multiset<T>(s: Seq<T>, key: spec_fn(T) -> Seq<char>)
    ensures
        stable_sort(s, key).to_multiset() == s.to_multiset(),
    decreases s.len(),
{
    if s.len() > 0 {
        let o = stable_sort(s.drop_last(), key);
        lemma_stable_sort_multiset(s.drop_last(), key);
        lemma_ins_pos_le(o, key, key(s.last()));
        lemma_insert_multiset(o, ins_pos(o, key, key(s.last())) as int, s.last());
        assert(s =~= s.drop_last().push(s.last()));
        assert(s.to_multiset() =~= s.drop_last().to_multiset().insert(s.last()));
    } else {
        assert(stable_sort(s, key) =~= s);
    }
}

/// `v` sorted by key; entries with equal keys keep their order.
pub fn sort_by_key<T: Keyed>(v: Vec<T>) -> (r: Vec<T>)
    ensures
        r@ == stable_sort(v@, key_of::<T>()),
        sorted_by_key(r@),
        r@.to_multiset() == v@.to_multiset(),
        r@.len() == v@.len(),
{
    let ghost v0 = v@;
    let ghost kf = key_of::<T>();
    let mut src = v;
    let mut out: Vec<T> = Vec::new();
    assert(v0.subrange(0, 0) =~= seq![]);
    assert(v0.subrange(0, v0.len() as int) =~= v0);
    while src.len() > 0
        invariant
            kf == key_of::<T>(),
            src@.len() <= v0.len(),
            src@ == v0.subrange(v0.len() - src@.len(), v0.len() as int),
            out@ == stable_sort(v0.subrange(0, v0.len() - src@.len()), kf),
            sorted_by_key(out@),
            out@.to_multiset().add(src@.to_multiset()) == v0.to_multiset(),
        decreases src.len(),
    {
        let ghost s0 = src@;
        let ghost done = v0.len() - s0.len();
        let x = src.remove(0);
        let k = x.key_chars();
        let p = insertion_point(&out, &k);
        let ghost o0 = out@;
        out.insert(p, x);
        proof {
            assert(s0[0] == v0[done]);
            assert(src@ =~= v0.subrange(done + 1, v0.len() as int));
            let pre = v0.subrange(0, done + 1);
            assert(pre.drop_last() =~= v0.subrange(0, done));
            assert(pre.last() == x);
            assert(kf(x) == k@);
            lemma_ins_pos(o0, kf, k@, p as int);
            assert(out@ =~= stable_sort(pre, kf));
            lemma_insert_multiset(o0, p as int, x);
            assert(s0.remove(0).to_multiset() =~= s0.to_multiset().remove(s0[0]));
            assert(s0.to_multiset().count(s0[0]) > 0) by {
                assert(s0.contains(s0[0]));
            }
            assert(out@.to_multiset().add(src@.to_multiset()) =~= v0.to_multiset());
            assert forall|i: int, j: int| 0 <= i < j < out@.len() implies text_le(
                #[trigger] out@[i].key(),
                #[trigger] out@[j].key(),
            ) by {
                if i < p && j < p {
                    assert(out@[i] == o0[i] && out@[j] == o0[j]);
                } else if i < p && j == p {
                    assert(out@[i] == o0[i]);
                } else if i < p && j > p {
                    assert(out@[i] == o0[i] && out@[j] == o0[j - 1]);
                    assert(text_le(o0[i].key(), k@));
                    assert(text_lt(k@, o0[j - 1].key()));
                    lemma_text_le_transitive(o0[i].key(), k@, o0[j - 1].key());
                } else if i == p {
                    assert(out@[j] == o0[j - 1]);
                    assert(text_lt(k@, o0[j - 1].key()));
                } else {
                    assert(out@[i] == o0[i - 1] && out@[j] == o0[j - 1]);
                }
            }
        }
    }
    proof {
        assert(src@.to_multiset() =~= Multiset::empty());
        assert(out@.to_multiset().add(src@.to_multiset()) =~= out@.to_multiset());
        assert(out@.len() == out@.to_multiset().len());
        assert(v0.len() == v0.to_multiset().len());
    }
    out
}

impl Keyed for String {
    open spec fn key(&self) -> Seq<char> {
        self@
    }

    fn key_chars(&self) -> (v: Vec<char>) {
        crate::text::chars_of(self.as_str())
    }
}

} // verus!
