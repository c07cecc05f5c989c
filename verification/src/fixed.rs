//! Fixed-point scalar arithmetic: the scaled integer `v` stands for the
//! real number `v / SCALE`.  Division truncates toward zero, as the
//! corresponding hardware float operations round; square roots are integer
//! square roots of the scaled radicand.

use vstd::prelude::*;
use vstd::arithmetic::div_mod::{lemma_div_is_ordered, lemma_div_multiples_vanish, lemma_div_pos_is_pos, lemma_div_nonincreasing};
use vstd::arithmetic::mul::{lemma_mul_inequality, lemma_mul_nonnegative, lemma_mul_strict_inequality};

verus! {

/// One in fixed-point form: `SCALE` scaled units stand for the real 1.0.
pub const SCALE: i64 = 65536;

/// Division truncated toward zero, defined for positive divisors.
pub open spec fn tdiv(a: int, b: int) -> int {
    if a >= 0 {
        a / b
    } else {
        -((-a) / b)
    }
}

/// `x` clipped into the closed interval `[lo, hi]`.
pub open spec fn clip(x: int, lo: int, hi: int) -> int {
    if x < lo {
        lo
    } else if x > hi {
        hi
    } else {
        x
    }
}

/// `r` is the integer square root of `n`.
pub open spec fn is_isqrt(n: int, r: int) -> bool {
    0 <= r && r * r <= n && n < (r + 1) * (r + 1)
}

/// The integer square root of `n` (zero for negative `n`).
pub open spec fn isq(n: int) -> int {
    choose|r: int| is_isqrt(n, r)
}

/// The integer square root is unique, so any witness equals `isq`.
pub proof fn lemma_isqrt_unique(n: int, r: int)
    requires
        is_isqrt(n, r),
    ensures
        isq(n) == r,
{
    assert(exists|x: int| is_isqrt(n, x));
    let s = isq(n);
    assert(is_isqrt(n, s));
    if s < r {
        assert(s + 1 <= r);
        assert((s + 1) * (s + 1) <= r * r) by (nonlinear_arith)
            requires 0 <= s + 1 && s + 1 <= r;
        assert(false);
    }
    if r < s {
        assert((r + 1) * (r + 1) <= s * s) by (nonlinear_arith)
            requires 0 <= r + 1 && r + 1 <= s;
        assert(false);
    }
}

/// Every nonnegative integer has an integer square root.
pub proof fn lemma_isqrt_exists(n: int)
    requires
        0 <= n,
    ensures
        is_isqrt(n, isq(n)),
    decreases n,
{
    if n == 0 {
        assert(is_isqrt(0, 0));
    } else {
        lemma_isqrt_exists(n - 1);
        let r = isq(n - 1);
        if (r + 1) * (r + 1) <= n {
            assert(n <= (r + 1) * (r + 1));
            assert((r + 1) * (r + 1) < (r + 2) * (r + 2)) by (nonlinear_arith)
                requires 0 <= r;
            assert(is_isqrt(n, r + 1));
        } else {
            assert(is_isqrt(n, r));
        }
    }
    assert(exists|x: int| is_isqrt(n, x));
    let s = isq(n);
    assert(is_isqrt(n, s));
}

/// Truncated division shrinks magnitudes: `|tdiv(a, b)| <= |a|` and
/// `|tdiv(a, b)| <= m` whenever `|a| <= m * b`.
pub proof fn lemma_tdiv_bound(a: int, b: int, m: int)
    requires
        1 <= b,
        0 <= m,
        -(m * b) <= a <= m * b,
    ensures
        -m <= tdiv(a, b) <= m,
{
    assert(m * b == b * m) by (nonlinear_arith);
    lemma_div_multiples_vanish(m, b);
    if a >= 0 {
        lemma_div_pos_is_pos(a, b);
        lemma_div_is_ordered(a, m * b, b);
        assert(tdiv(a, b) <= m);
    } else {
        lemma_div_pos_is_pos(-a, b);
        lemma_div_is_ordered(-a, m * b, b);
        assert((-a) / b <= m);
    }
}

/// Truncated division never grows a value: `|tdiv(a, b)| <= |a|`.
pub proof fn lemma_tdiv_shrinks(a: int, b: int)
    requires
        1 <= b,
    ensures
        a >= 0 ==> 0 <= tdiv(a, b) <= a,
        a < 0 ==> a <= tdiv(a, b) <= 0,
{
    if a >= 0 {
        lemma_div_pos_is_pos(a, b);
        lemma_div_nonincreasing(a, b);
    } else {
        lemma_div_pos_is_pos(-a, b);
        lemma_div_nonincreasing(-a, b);
    }
}

/// Truncated division by a positive divisor, computed with unsigned
/// machine division.
pub fn div_fx(a: i128, b: i128) -> (r: i128)
    requires
        1 <= b,
        -0x7fffffffffffffffffffffffffff0000 <= a <= 0x7fffffffffffffffffffffffffff0000,
    ensures
        r == tdiv(a as int, b as int),
        a >= 0 ==> 0 <= r <= a,
        a < 0 ==> a <= r <= 0,
{
    proof {
        lemma_tdiv_shrinks(a as int, b as int);
    }
    if a >= 0 {
        let q: u128 = (a as u128) / (b as u128);
        q as i128
    } else {
        let q: u128 = ((-a) as u128) / (b as u128);
        -(q as i128)
    }
}

/// Narrowing an `i128` known to be in `i64` range.
pub fn narrow(a: i128) -> (r: i64)
    requires
        -0x8000000000000000 <= a <= 0x7fffffffffffffff,
    ensures
        r == a,
{
    a as i64
}

/// Integer square root by bisection.
pub fn isqrt_u128(n: u128) -> (r: u128)
    ensures
        is_isqrt(n as int, r as int),
        r == isq(n as int),
        r <= 0xffffffffffffffff,
{
    let mut lo: u128 = 0;
    let mut hi: u128 = 0x10000000000000000;
    while lo + 1 < hi
        invariant
            lo < hi,
            hi <= 0x10000000000000000,
            (lo as int) * (lo as int) <= n as int,
            (n as int) < (hi as int) * (hi as int),
        decreases hi - lo,
    {
        let mid: u128 = lo + (hi - lo) / 2;
        assert(lo < mid < hi);
        assert((mid as int) * (mid as int) < 0xffffffffffffffffffffffffffffffff) by (nonlinear_arith)
            requires 0 <= (mid as int) < 0x10000000000000000;
        let sq: u128 = mid * mid;
        if sq <= n {
            lo = mid;
        } else {
            hi = mid;
        }
    }
    assert(hi == lo + 1);
    proof {
        lemma_isqrt_unique(n as int, lo as int);
    }
    lo
}

/// A product of values bounded by `xb` and `yb` is bounded by `xb * yb`.
pub proof fn lemma_abs_mul_bound(x: int, xb: int, y: int, yb: int)
    requires
        -xb <= x <= xb,
        -yb <= y <= yb,
        0 <= xb,
        0 <= yb,
    ensures
        -(xb * yb) <= x * y <= xb * yb,
{
    assert(-(xb * yb) <= x * y <= xb * yb) by (nonlinear_arith)
        requires -xb <= x <= xb, -yb <= y <= yb, 0 <= xb, 0 <= yb;
}

/// Squares are nonnegative.
pub proof fn lemma_square_nonneg(x: int)
    ensures
        0 <= x * x,
{
    if x >= 0 {
        lemma_mul_nonnegative(x, x);
    } else {
        lemma_mul_nonnegative(-x, -x);
        assert(x * x == (-x) * (-x)) by (nonlinear_arith);
    }
}

/// If `x * x <= q < (l + 1) * (l + 1)` with `l >= 0` then `|x| <= l`.
pub proof fn lemma_sqrt_dominates(x: int, q: int, l: int)
    requires
        0 <= l,
        x * x <= q,
        q < (l + 1) * (l + 1),
    ensures
        -l <= x <= l,
{
    if x > l {
        lemma_mul_inequality(l + 1, x, x);
        lemma_mul_inequality(l + 1, x, l + 1);
        assert((l + 1) * (l + 1) <= x * x) by (nonlinear_arith)
            requires 0 <= l + 1 <= x;
        assert(false);
    }
    if x < -l {
        assert((l + 1) * (l + 1) <= x * x) by (nonlinear_arith)
            requires 0 <= l + 1 <= -x;
        assert(false);
    }
}

} // verus!
