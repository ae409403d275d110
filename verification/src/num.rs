//! Integer arithmetic helpers for the fixed-point core: truncating division
//! with an exact specification, and an integer square root.

use vstd::prelude::*;

verus! {

use vstd::arithmetic::div_mod::{
    lemma_div_is_ordered, lemma_div_pos_is_pos, lemma_div_nonincreasing,
};
use vstd::math::abs;

/// Truncating (round-toward-zero) division, the semantics of `/` on Rust's
/// signed integers. Stated with a non-negative numerator and a positive
/// denominator so that the mathematical `/` below is plain floor division.
pub open spec fn tdiv(a: int, b: int) -> int
    recommends
        b != 0,
{
    let q = (abs(a) as int) / (abs(b) as int);
    if (a >= 0) == (b >= 0) {
        q
    } else {
        -q
    }
}

/// Truncating division by a positive divisor is monotone in the numerator.
pub proof fn lemma_tdiv_mono(a1: int, a2: int, b: int)
    requires
        a1 <= a2,
        b > 0,
    ensures
        tdiv(a1, b) <= tdiv(a2, b),
{
    if a1 >= 0 {
        lemma_div_is_ordered(a1, a2, b);
    } else if a2 < 0 {
        lemma_div_is_ordered(-a2, -a1, b);
    } else {
        lemma_div_pos_is_pos(-a1, b);
        lemma_div_pos_is_pos(a2, b);
    }
}

/// Truncating division by a negative divisor reverses the order.
pub proof fn lemma_tdiv_anti(a1: int, a2: int, b: int)
    requires
        a1 <= a2,
        b < 0,
    ensures
        tdiv(a1, b) >= tdiv(a2, b),
{
    lemma_tdiv_mono(a1, a2, -b);
    assert(tdiv(a1, b) == -tdiv(a1, -b));
    assert(tdiv(a2, b) == -tdiv(a2, -b));
}

/// The magnitude of a truncating quotient never exceeds the numerator's.
pub proof fn lemma_tdiv_bound(a: int, b: int)
    requires
        b != 0,
    ensures
        abs(tdiv(a, b)) <= abs(a),
        a >= 0 && b > 0 ==> 0 <= tdiv(a, b) <= a,
{
    lemma_div_nonincreasing(abs(a) as int, abs(b) as int);
    lemma_div_pos_is_pos(abs(a) as int, abs(b) as int);
}

/// Scaling by a fraction `a / s` with `0 <= a <= s` cannot increase a
/// non-negative value: `0 <= (a * c) / s <= c`.
pub proof fn lemma_tdiv_scale_le(a: int, c: int, s: int)
    requires
        0 <= a <= s,
        0 <= c,
        0 < s,
    ensures
        0 <= tdiv(a * c, s) <= c,
{
    assert(a * c >= 0) by (nonlinear_arith)
        requires 0 <= a && 0 <= c;
    assert(a * c <= s * c) by (nonlinear_arith)
        requires a <= s && 0 <= c;
    lemma_div_is_ordered(a * c, s * c, s);
    assert(s * c / s == c) by (nonlinear_arith)
        requires s > 0;
    lemma_div_pos_is_pos(a * c, s);
}

/// Magnitude bound for a product, for overflow reasoning.
pub proof fn lemma_mul_abs_bound(a: int, b: int, ma: int, mb: int)
    requires
        abs(a) <= ma,
        abs(b) <= mb,
    ensures
        -(ma * mb) <= a * b <= ma * mb,
{
    assert(-(ma * mb) <= a * b <= ma * mb) by (nonlinear_arith)
        requires
            abs(a) <= ma,
            abs(b) <= mb,
    ;
}

/// Magnitude bound for a truncating quotient: at most `m / b` when the
/// numerator's magnitude is at most `m`.
pub proof fn lemma_tdiv_quot_bound(a: int, b: int, m: int)
    requires
        b > 0,
        abs(a) <= m,
    ensures
        abs(tdiv(a, b)) <= m / b,
        abs(tdiv(a, b)) == (abs(a) as int) / b,
{
    lemma_div_is_ordered(abs(a) as int, m, b);
    lemma_div_pos_is_pos(abs(a) as int, b);
}

/// The truncated midpoint of `l` and `u` lies between them.
pub proof fn lemma_tdiv_mid(l: int, u: int)
    requires
        l <= u,
    ensures
        l <= tdiv(l + u, 2) <= u,
{
    let s = l + u;
    if s >= 0 {
        vstd::arithmetic::div_mod::lemma_fundamental_div_mod(s, 2);
        vstd::arithmetic::div_mod::lemma_mod_pos_bound(s, 2);
        assert(s == 2 * (s / 2) + s % 2);
    } else {
        vstd::arithmetic::div_mod::lemma_fundamental_div_mod(-s, 2);
        vstd::arithmetic::div_mod::lemma_mod_pos_bound(-s, 2);
        assert(-s == 2 * ((-s) / 2) + (-s) % 2);
    }
}

/// `r` is the integer square root of `n`: the largest integer whose square
/// does not exceed `n`.
pub open spec fn is_sqrt_floor(n: int, r: int) -> bool {
    0 <= r && r * r <= n && n < (r + 1) * (r + 1)
}

/// The integer square root as a spec-level value; unique by
/// `lemma_sqrt_floor_unique`.
pub open spec fn sqrt_floor(n: int) -> int {
    choose|r: int| is_sqrt_floor(n, r)
}

/// Every non-negative integer has an integer square root, so `sqrt_floor`
/// denotes it.
pub proof fn lemma_sqrt_floor_exists(n: int)
    requires
        n >= 0,
    ensures
        is_sqrt_floor(n, sqrt_floor(n)),
        sqrt_floor(n) >= 0,
    decreases n,
{
    if n == 0 {
        assert(is_sqrt_floor(0, 0));
    } else {
        lemma_sqrt_floor_exists(n - 1);
        let r = sqrt_floor(n - 1);
        if (r + 1) * (r + 1) <= n {
            assert(n == (r + 1) * (r + 1));
            assert((r + 1) * (r + 1) < (r + 2) * (r + 2)) by (nonlinear_arith)
                requires r >= 0;
            assert(is_sqrt_floor(n, r + 1));
        } else {
            assert(is_sqrt_floor(n, r));
        }
    }
}

pub proof fn lemma_sqrt_floor_unique(n: int, r: int)
    requires
        is_sqrt_floor(n, r),
    ensures
        sqrt_floor(n) == r,
{
    assert(is_sqrt_floor(n, sqrt_floor(n)));
    let r2 = sqrt_floor(n);
    if r < r2 {
        assert((r + 1) * (r + 1) <= r2 * r2) by (nonlinear_arith)
            requires 0 <= r && r + 1 <= r2;
        assert(false);
    }
    if r2 < r {
        assert((r2 + 1) * (r2 + 1) <= r * r) by (nonlinear_arith)
            requires 0 <= r2 && r2 + 1 <= r;
        assert(false);
    }
}

/// Truncating division on `i64`, written with non-negative numerators and
/// positive divisors so that its result provably matches `tdiv`.
pub fn div_i64(a: i64, b: i64) -> (q: i64)
    requires
        b != 0,
        -0x4000_0000_0000_0000 < a < 0x4000_0000_0000_0000,
        -0x4000_0000_0000_0000 < b < 0x4000_0000_0000_0000,
    ensures
        q == tdiv(a as int, b as int),
        abs(q as int) <= abs(a as int),
{
    proof {
        lemma_tdiv_bound(a as int, b as int);
    }
    let an: i64 = if a >= 0 { a } else { -a };
    let bn: i64 = if b >= 0 { b } else { -b };
    let qn: i64 = an / bn;
    if (a >= 0) == (b >= 0) {
        qn
    } else {
        -qn
    }
}

/// Truncating division on `i128`, for wide intermediates.
pub fn div_i128(a: i128, b: i128) -> (q: i128)
    requires
        b != 0,
        -0x4000_0000_0000_0000_0000_0000_0000_0000 < a,
        a < 0x4000_0000_0000_0000_0000_0000_0000_0000,
        -0x4000_0000_0000_0000_0000_0000_0000_0000 < b,
        b < 0x4000_0000_0000_0000_0000_0000_0000_0000,
    ensures
        q == tdiv(a as int, b as int),
        abs(q as int) <= abs(a as int),
{
    proof {
        lemma_tdiv_bound(a as int, b as int);
    }
    let an: i128 = if a >= 0 { a } else { -a };
    let bn: i128 = if b >= 0 { b } else { -b };
    let qn: i128 = an / bn;
    if (a >= 0) == (b >= 0) {
        qn
    } else {
        -qn
    }
}

/// Integer square root by binary search.
pub fn isqrt_u128(n: u128) -> (r: u128)
    requires
        n < 0x4000_0000_0000_0000_0000_0000_0000_0000,
    ensures
        is_sqrt_floor(n as int, r as int),
        r == sqrt_floor(n as int),
        r < 0x8000_0000_0000_0000,
{
    let mut lo: u128 = 0;
    let mut hi: u128 = 0x8000_0000_0000_0000;
    proof {
        assert((hi as int) * (hi as int) > n);
    }
    while hi - lo > 1
        invariant
            0 <= lo < hi <= 0x8000_0000_0000_0000,
            (lo as int) * (lo as int) <= n as int,
            (n as int) < (hi as int) * (hi as int),
        decreases hi - lo,
    {
        let mid: u128 = lo + (hi - lo) / 2;
        proof {
            assert((mid as int) * (mid as int) < 0x8000_0000_0000_0000i128 * 0x8000_0000_0000_0000i128)
                by (nonlinear_arith)
                requires 0 <= mid < 0x8000_0000_0000_0000i128;
        }
        if mid * mid <= n {
            lo = mid;
        } else {
            hi = mid;
        }
    }
    proof {
        lemma_sqrt_floor_unique(n as int, lo as int);
    }
    lo
}


/// Magnitude bound for a truncating quotient by any divisor at least `b0`.
pub proof fn lemma_tdiv_quot_bound_den(a: int, b: int, m: int, b0: int)
    requires
        0 < b0 <= b,
        abs(a) <= m,
    ensures
        abs(tdiv(a, b)) <= m / b0,
{
    lemma_tdiv_quot_bound(a, b, m);
    vstd::arithmetic::div_mod::lemma_div_is_ordered_by_denominator(abs(a) as int, b0, b);
    lemma_div_is_ordered(abs(a) as int, m, b0);
}

/// Fixed-point multiply: `(a * b) / FP_ONE`, truncating.
pub fn mul_fx(a: i64, b: i64) -> (r: i64)
    requires
        abs(a as int) <= 0x40_0000_0000,
        abs(b as int) <= 0x40_0000_0000,
    ensures
        r == tdiv(a * b, crate::FP_ONE as int),
        abs(r as int) <= 0x1000_0000_0000_0000,
{
    proof {
        lemma_mul_abs_bound(a as int, b as int, 0x40_0000_0000, 0x40_0000_0000);
        lemma_tdiv_quot_bound(
            a * b,
            crate::FP_ONE as int,
            0x1000_0000_0000_0000_0000,
        );
    }
    div_i128((a as i128) * (b as i128), crate::FP_ONE as i128) as i64
}

/// Fixed-point divide: `(a * FP_ONE) / b`, truncating.
pub fn div_fx(a: i64, b: i64) -> (r: i64)
    requires
        0 < b <= 0x4000_0000_0000,
        abs(a as int) <= 0x40_0000_0000,
    ensures
        r == tdiv(a * crate::FP_ONE, b as int),
        abs(r as int) <= 0x400_0000_0000_0000,
{
    proof {
        lemma_mul_abs_bound(a as int, crate::FP_ONE as int, 0x40_0000_0000, crate::FP_ONE as int);
        lemma_tdiv_quot_bound(a * crate::FP_ONE, b as int, 0x400_0000_0000_0000);
    }
    div_i128((a as i128) * (crate::FP_ONE as i128), b as i128) as i64
}

} // verus!
