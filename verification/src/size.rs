//! Human-readable byte counts, as the deploy log prints them.
//!
//! A count of bytes is shown the way `format!("{:.1} MB", bytes as f64 / MB)`
//! (or KB, or a plain `{bytes} B`) shows it. The arithmetic is done here on
//! integers: the conversion to a 64-bit float rounds to 53 significant bits,
//! ties to even, and one-decimal formatting rounds the exact quotient, ties to
//! even.

use vstd::prelude::*;
use crate::text::{decimal, decimal_chars, digit, digit_char, push_chars, push_str};

verus! {

/// The largest power of two below which every integer is an exact float.
pub const FLOAT_EXACT: u64 = 9007199254740992;

/// One kibibyte.
pub const KB: u128 = 1024;

/// One mebibyte.
pub const MB: u128 = 1048576;

/// `2` raised to `e`.
pub open spec fn p2(e: nat) -> nat
    decreases e,
{
    if e == 0 {
        1
    } else {
        2 * p2((e - 1) as nat)
    }
}

/// `n / d` rounded to the nearest integer, ties to the even one.
pub open spec fn round_half_even(n: nat, d: nat) -> nat {
    let q = n / d;
    let r = n % d;
    if 2 * r > d || (2 * r == d && q % 2 == 1) {
        q + 1
    } else {
        q
    }
}

/// How many low bits of `n` a 64-bit float cannot hold (its significand has 53).
pub open spec fn float_excess(n: nat) -> nat
    decreases n,
{
    if n < FLOAT_EXACT {
        0
    } else {
        1 + float_excess(n / 2)
    }
}

/// The value of `n as f64`: `n` rounded to 53 significant bits, ties to even.
pub open spec fn float_value(n: nat) -> nat {
    let d = p2(float_excess(n));
    round_half_even(n, d) * d
}

/// `v / unit` written with one decimal, rounded ties to even (what `{:.1}` prints).
pub open spec fn one_decimal(v: nat, unit: nat) -> Seq<char> {
    let q = round_half_even(10 * v, unit);
    decimal(q / 10) + seq!['.', digit_char(q % 10)]
}

/// The text `human_size` gives for `bytes`.
pub open spec fn human_size_spec(bytes: nat) -> Seq<char> {
    let f = float_value(bytes);
    if f >= MB {
        one_decimal(f, MB as nat) + " MB"@
    } else if f >= KB {
        one_decimal(f, KB as nat) + " KB"@
    } else {
        decimal(bytes) + " B"@
    }
}

proof fn lemma_p2_values()
    ensures
        p2(11) == 2048,
{
    reveal_with_fuel(p2, 12);
}

proof fn lemma_p2_monotone(i: nat, j: nat)
    requires
        i <= j,
    ensures
        p2(i) <= p2(j),
        p2(i) >= 1,
    decreases j,
{
    if i < j {
        lemma_p2_monotone(i, (j - 1) as nat);
    } else if i > 0 {
        lemma_p2_monotone((i - 1) as nat, (i - 1) as nat);
    }
}

proof fn lemma_excess_bound(n: nat, k: nat)
    requires
        n < FLOAT_EXACT * p2(k),
    ensures
        float_excess(n) <= k,
    decreases k,
{
    if n >= FLOAT_EXACT {
        if k == 0 {
            assert(false);
        } else {
            let pk = p2((k - 1) as nat);
            assert(FLOAT_EXACT * p2(k) == 2 * (FLOAT_EXACT * pk)) by (nonlinear_arith)
                requires
                    p2(k) == 2 * pk,
            ;
            lemma_excess_bound(n / 2, (k - 1) as nat);
        }
    }
}

fn excess_of(n: u64) -> (e: u64)
    ensures
        e == float_excess(n as nat),
        e <= 11,
    decreases n,
{
    proof {
        lemma_p2_values();
        lemma_excess_bound(n as nat, 11);
    }
    if n < FLOAT_EXACT {
        0
    } else {
        1 + excess_of(n / 2)
    }
}

fn pow2_of(e: u64) -> (d: u64)
    requires
        e <= 11,
    ensures
        d == p2(e as nat),
        1 <= d <= 2048,
{
    let mut d: u64 = 1;
    let mut i: u64 = 0;
    while i < e
        invariant
            i <= e <= 11,
            d == p2(i as nat),
            1 <= d <= 2048,
        decreases e - i,
    {
        proof {
            lemma_p2_values();
            lemma_p2_monotone((i + 1) as nat, 11);
        }
        d = d * 2;
        i = i + 1;
    }
    d
}

/// `n / d` rounded ties to even.
fn round_even(n: u128, d: u128) -> (q: u128)
    requires
        0 < d <= 0x1000_0000_0000,
        n < 0x1000_0000_0000_0000_0000_0000_0000,
    ensures
        q == round_half_even(n as nat, d as nat),
        q <= n / d + 1,
{
    let q0 = n / d;
    let r = n % d;
    if 2 * r > d || (2 * r == d && q0 % 2 == 1) {
        q0 + 1
    } else {
        q0
    }
}

/// The value of `n as f64`, as an integer.
fn float_of(n: u64) -> (f: u128)
    ensures
        f == float_value(n as nat),
        f <= n + 2048,
{
    let e = excess_of(n);
    let d = pow2_of(e);
    let q = round_even(n as u128, d as u128);
    proof {
        let nn = n as int;
        let dd = d as int;
        let qq = q as int;
        assert(qq * dd <= nn + dd) by (nonlinear_arith)
            requires
                dd > 0,
                qq <= nn / dd + 1,
                nn >= 0,
        {
            vstd::arithmetic::div_mod::lemma_fundamental_div_mod(nn, dd);
            assert(dd * (nn / dd) <= nn);
        }
    }
    q * (d as u128)
}

/// `v / unit` with one decimal, ties to even.
fn one_decimal_chars(v: u128, unit: u128) -> (t: Vec<char>)
    requires
        0 < unit <= 0x1000_0000_0000,
        v <= 0x1_0000_0000_0000_1000,
    ensures
        t@ == one_decimal(v as nat, unit as nat),
{
    let q = round_even(10 * v, unit);
    let mut t = decimal_chars(q / 10);
    t.push('.');
    t.push(digit(q % 10));
    assert(t@ =~= one_decimal(v as nat, unit as nat));
    t
}

/// A byte count as the deploy log shows it: `"1.5 MB"`, `"2.0 KB"`, `"512 B"`.
pub fn human_size(bytes: usize) -> (s: String)
    ensures
        s@ == human_size_spec(bytes as nat),
{
    let f = float_of(bytes as u64);
    let mut s = String::new();
    if f >= MB {
        let t = one_decimal_chars(f, MB);
        push_chars(&mut s, &t);
        push_str(&mut s, " MB");
    } else if f >= KB {
        let t = one_decimal_chars(f, KB);
        push_chars(&mut s, &t);
        push_str(&mut s, " KB");
    } else {
        let t = decimal_chars(bytes as u128);
        push_chars(&mut s, &t);
        push_str(&mut s, " B");
    }
    s
}

} // verus!
