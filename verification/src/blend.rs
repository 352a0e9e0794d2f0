//! Exact integer evaluation of the single-precision blend that the ETC1
//! encoder uses to pick a base colour between the darkest and brightest
//! pixels of a sub-block.
//!
//! The blend is `trunc(lo * d1 + hi * d2)` evaluated in `f32`, where
//! `d1 = m0 / m1` and `d2 = 1 - d1` for a row `(m0, m1)` of the modifier
//! table. Every `f32` value involved is a dyadic rational `D * 2^-E`; the
//! functions below carry out the same round-to-nearest-even steps on the
//! integer numerators, so the result is the one `f32` arithmetic gives.
use vstd::prelude::*;
use vstd::arithmetic::power2::{pow2, lemma_pow2_pos, lemma_pow2_unfold, lemma2_to64};
use vstd::arithmetic::div_mod::{lemma_div_denominator, lemma_fundamental_div_mod};

verus! {

/// Number of halvings that bring `n` below `2^24`.
pub open spec fn f32_shift(n: nat) -> nat
    decreases n,
{
    if n < 0x100_0000 {
        0
    } else {
        1 + f32_shift(n / 2)
    }
}

/// `n` rounded to 24 significant bits, ties to even: the numerator of the
/// nearest `f32` at the same scale.
pub open spec fn round24(n: nat) -> nat {
    let s = f32_shift(n);
    if s == 0 {
        n
    } else {
        let p = pow2(s);
        let q = n / p;
        let r = n % p;
        let half = pow2((s - 1) as nat);
        let q2 = if r > half || (r == half && q % 2 == 1) { q + 1 } else { q };
        q2 * p
    }
}

/// The `f32` weights of table row `t`: `m0 / m1 == D1 * 2^-E1` and
/// `1 - m0 / m1 == D2 * 2^-E2`, as `(D1, E1, D2, E2)`.
pub open spec fn blend_weights(t: int) -> (int, int, int, int) {
    if t == 0 { (1, 2, 3, 2) }
    else if t == 1 { (9868951, 25, 2960685, 22) }
    else if t == 2 { (2603361, 23, 5785247, 23) }
    else if t == 3 { (1298237, 22, 2896067, 22) }
    else if t == 4 { (5033165, 24, 11744051, 24) }
    else if t == 5 { (5033165, 24, 11744051, 24) }
    else if t == 6 { (10446191, 25, 1444265, 21) }
    else { (8617805, 25, 6234157, 23) }
}

/// `trunc(lo * d1 + hi * d2)` evaluated in `f32` for table row `t`.
pub open spec fn f32_blend(t: int, lo: u8, hi: u8) -> int {
    let (d1, e1, d2, e2) = blend_weights(t);
    let e = if e1 > e2 { e1 } else { e2 };
    let p1 = round24((lo * d1) as nat);
    let p2 = round24((hi * d2) as nat);
    let s = round24(p1 * pow2((e - e1) as nat) + p2 * pow2((e - e2) as nat));
    s as int / pow2(e as nat) as int
}

proof fn lemma_shift_bound(n: nat, k: nat)
    requires
        n < pow2(24 + k),
    ensures
        f32_shift(n) <= k,
        n / pow2(f32_shift(n)) < 0x100_0000,
    decreases n,
{
    lemma2_to64();
    if n >= 0x100_0000 {
        if k == 0 {
            assert(false);
        }
        lemma_pow2_unfold(24 + k);
        lemma_shift_bound(n / 2, (k - 1) as nat);
        let s = f32_shift(n / 2);
        lemma_pow2_unfold(s + 1);
        lemma_pow2_pos(s);
        lemma_div_denominator(n as int, 2, pow2(s) as int);
    } else {
        assert(n / 1 == n);
    }
}

proof fn lemma_pow2_le(a: nat, b: nat)
    requires
        a <= b,
    ensures
        pow2(a) <= pow2(b),
{
    if a < b {
        vstd::arithmetic::power2::lemma_pow2_strictly_increases(a, b);
    }
}

/// Computes `round24(n)`.
pub fn round24_exec(n: u64) -> (r: u64)
    requires
        n < 0x100_0000_0000,
    ensures
        r == round24(n as nat),
        r <= 2 * n,
{
    proof {
        lemma2_to64();
        vstd::arithmetic::power2::lemma2_to64_rest();
        lemma_shift_bound(n as nat, 16);
    }
    let mut m: u64 = n;
    let mut s: u64 = 0;
    let mut p: u64 = 1;
    while m >= 0x100_0000
        invariant
            n < 0x100_0000_0000,
            s <= 16,
            p == pow2(s as nat),
            m == n as nat / pow2(s as nat),
            f32_shift(n as nat) == s + f32_shift(m as nat),
            f32_shift(n as nat) <= 16,
            s > 0 ==> m >= 0x80_0000,
        decreases m,
    {
        proof {
            lemma_pow2_le(s as nat, 16);
            lemma2_to64();
            lemma_pow2_unfold((s + 1) as nat);
            lemma_pow2_pos(s as nat);
            lemma_div_denominator(n as int, pow2(s as nat) as int, 2);
            vstd::arithmetic::power2::lemma_pow2_strictly_increases((s + 1) as nat, 17);
        }
        m = m / 2;
        s = s + 1;
        p = p * 2;
    }
    assert(f32_shift(m as nat) == 0);
    if s == 0 {
        assert(pow2(0) == 1) by { lemma2_to64(); }
        return n;
    }
    proof {
        lemma_pow2_pos(s as nat);
        lemma_fundamental_div_mod(n as int, p as int);
        lemma_pow2_unfold(s as nat);
    }
    let q = m;
    let r = n % p;
    let half = p / 2;
    let q2 = if r > half || (r == half && q % 2 == 1) { q + 1 } else { q };
    assert(q2 <= 0x100_0000);
    proof {
        vstd::arithmetic::mul::lemma_mul_inequality(1, q as int, p as int);
        vstd::arithmetic::mul::lemma_mul_is_distributive_add_other_way(p as int, q as int, 1);
        assert(q2 * p <= q * p + p) by (nonlinear_arith)
            requires q2 <= q + 1, p > 0;
    }
    q2 * p
}

/// The `f32` weights of table row `t`.
fn blend_weights_exec(t: usize) -> (w: (u64, u64, u64, u64))
    requires
        t < 8,
    ensures
        w.0 as int == blend_weights(t as int).0,
        w.1 as int == blend_weights(t as int).1,
        w.2 as int == blend_weights(t as int).2,
        w.3 as int == blend_weights(t as int).3,
        w.0 < 0x100_0000,
        w.2 < 0x100_0000,
        w.1 <= 25,
        w.3 <= 25,
{
    match t {
        0 => (1, 2, 3, 2),
        1 => (9868951, 25, 2960685, 22),
        2 => (2603361, 23, 5785247, 23),
        3 => (1298237, 22, 2896067, 22),
        4 => (5033165, 24, 11744051, 24),
        5 => (5033165, 24, 11744051, 24),
        6 => (10446191, 25, 1444265, 21),
        _ => (8617805, 25, 6234157, 23),
    }
}

/// Computes `f32_blend(t, lo, hi)`.
pub fn f32_blend_exec(t: usize, lo: u8, hi: u8) -> (v: u64)
    requires
        t < 8,
    ensures
        v == f32_blend(t as int, lo, hi),
{
    let (d1, e1, d2, e2) = blend_weights_exec(t);
    let e: u64 = if e1 > e2 { e1 } else { e2 };
    proof {
        lemma2_to64();
        vstd::arithmetic::mul::lemma_mul_upper_bound(lo as int, 255, d1 as int, 0x100_0000);
        vstd::arithmetic::mul::lemma_mul_upper_bound(hi as int, 255, d2 as int, 0x100_0000);
    }
    let p1 = round24_exec(lo as u64 * d1);
    let p2 = round24_exec(hi as u64 * d2);
    let mut k1: u64 = 1;
    let mut i: u64 = 0;
    while i < e - e1
        invariant
            e1 <= e <= 25,
            i <= e - e1,
            k1 == pow2(i as nat),
        decreases e - e1 - i,
    {
        proof {
            lemma_pow2_unfold((i + 1) as nat);
            lemma_pow2_le((i + 1) as nat, 25);
            lemma2_to64();
        }
        k1 = k1 * 2;
        i = i + 1;
    }
    let mut k2: u64 = 1;
    let mut j: u64 = 0;
    while j < e - e2
        invariant
            e2 <= e <= 25,
            j <= e - e2,
            k2 == pow2(j as nat),
        decreases e - e2 - j,
    {
        proof {
            lemma_pow2_unfold((j + 1) as nat);
            lemma_pow2_le((j + 1) as nat, 25);
            lemma2_to64();
        }
        k2 = k2 * 2;
        j = j + 1;
    }
    proof {
        // At most one of the two scales differs from the common one, and the
        // difference is at most 4, so the aligned sum stays below 2^40.
        assert(e - e1 <= 4 && e - e2 <= 4) by {
            if t == 0 {} else if t == 1 {} else if t == 2 {} else if t == 3 {}
            else if t == 4 {} else if t == 5 {} else if t == 6 {} else {}
        }
        lemma_pow2_le((e - e1) as nat, 4);
        lemma_pow2_le((e - e2) as nat, 4);
        vstd::arithmetic::mul::lemma_mul_upper_bound(p1 as int, 0x2_0000_0000, k1 as int, 16);
        vstd::arithmetic::mul::lemma_mul_upper_bound(p2 as int, 0x2_0000_0000, k2 as int, 16);
    }
    let sum = round24_exec(p1 * k1 + p2 * k2);
    let mut den: u64 = 1;
    let mut c: u64 = 0;
    while c < e
        invariant
            e <= 25,
            c <= e,
            den == pow2(c as nat),
        decreases e - c,
    {
        proof {
            lemma_pow2_unfold((c + 1) as nat);
            lemma_pow2_le((c + 1) as nat, 25);
            lemma2_to64();
        }
        den = den * 2;
        c = c + 1;
    }
    sum / den
}

} // verus!
