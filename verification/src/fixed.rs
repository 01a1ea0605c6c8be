//! Fixed-point arithmetic base.
//!
//! Every fractional quantity in the crate — intensities, alphas, zoom
//! factors, sizes, coordinates, seconds — is held in micro-units: a value
//! of [`UNIT`] (one million) stands for 1.0. Nonnegative quantities use
//! `u64`, coordinates and offsets use `i64`. The helpers here carry out
//! the multiply-then-divide steps of that representation exactly, with
//! truncation toward zero as Rust's own integer division would.

use vstd::prelude::*;

verus! {

/// One whole unit (1.0) in micro-units.
pub const UNIT: u64 = 1_000_000;

/// One whole unit (1.0) in micro-units, as a signed value.
pub const UNIT_I: i64 = 1_000_000;

/// Truncating (toward zero) division of `a` by a positive `d`, the way
/// Rust divides signed integers. Spec-level `/` is Euclidean, so the
/// negative case is spelled out.
pub open spec fn tdiv(a: int, d: int) -> int
    recommends
        d > 0,
{
    if a >= 0 {
        a / d
    } else {
        -((-a) / d)
    }
}

/// `a * b / d` rounded toward zero, exact in the intermediate product.
pub fn mul_div(a: u64, b: u64, d: u64) -> (r: u64)
    requires
        d > 0,
        a * b / (d as int) <= u64::MAX,
    ensures
        r == a * b / (d as int),
{
    proof {
        assert(a * b <= u64::MAX * u64::MAX) by (nonlinear_arith)
            requires
                a <= u64::MAX,
                b <= u64::MAX,
        ;
    }
    let p: u128 = (a as u128) * (b as u128);
    (p / (d as u128)) as u64
}

/// The bounds of a truncating quotient: it never crosses zero away from
/// the dividend and never exceeds it in magnitude.
pub proof fn lemma_tdiv_bounds(a: int, d: int)
    requires
        d >= 1,
    ensures
        a >= 0 ==> 0 <= tdiv(a, d) <= a,
        a < 0 ==> a <= tdiv(a, d) <= 0,
{
    if a >= 0 {
        vstd::arithmetic::div_mod::lemma_div_pos_is_pos(a, d);
        vstd::arithmetic::div_mod::lemma_div_nonincreasing(a, d);
    } else {
        vstd::arithmetic::div_mod::lemma_div_pos_is_pos(-a, d);
        vstd::arithmetic::div_mod::lemma_div_nonincreasing(-a, d);
    }
}

/// A truncating quotient stays within `b` when the dividend stays
/// within `b * d`.
pub proof fn lemma_tdiv_quotient_bound(a: int, d: int, b: int)
    requires
        d >= 1,
        b >= 0,
        -(b * d) <= a <= b * d,
    ensures
        -b <= tdiv(a, d) <= b,
{
    assert(b * d == d * b) by (nonlinear_arith);
    if a >= 0 {
        vstd::arithmetic::div_mod::lemma_div_is_ordered(a, d * b, d);
        vstd::arithmetic::div_mod::lemma_div_multiples_vanish(b, d);
        vstd::arithmetic::div_mod::lemma_div_pos_is_pos(a, d);
    } else {
        vstd::arithmetic::div_mod::lemma_div_is_ordered(-a, d * b, d);
        vstd::arithmetic::div_mod::lemma_div_multiples_vanish(b, d);
        vstd::arithmetic::div_mod::lemma_div_pos_is_pos(-a, d);
    }
}

/// `a * m / d` for a signed `a`, rounded toward zero as Rust would.
pub fn mul_div_signed(a: i64, m: u64, d: u64) -> (r: i64)
    requires
        d > 0,
        a > i64::MIN,
        -0x7fff_ffff_ffff_ffff <= tdiv(a * m, d as int) <= 0x7fff_ffff_ffff_ffff,
    ensures
        r == tdiv(a * m, d as int),
{
    if a >= 0 {
        proof {
            vstd::arithmetic::mul::lemma_mul_nonnegative(a as int, m as int);
        }
        let q = mul_div(a as u64, m, d);
        q as i64
    } else {
        let n: u64 = (-a) as u64;
        proof {
            assert((-a) * m == -(a * m)) by (nonlinear_arith);
            vstd::arithmetic::mul::lemma_mul_nonnegative(n as int, m as int);
        }
        let q = mul_div(n, m, d);
        -(q as i64)
    }
}

/// A product of bounded factors, divided, stays under the divided
/// product of the bounds.
pub proof fn lemma_mul_div_bound(a: int, b: int, abound: int, bbound: int, d: int)
    requires
        0 <= a <= abound,
        0 <= b <= bbound,
        d >= 1,
    ensures
        0 <= a * b / d <= abound * bbound / d,
{
    assert(a * b <= abound * bbound) by (nonlinear_arith)
        requires
            0 <= a <= abound,
            0 <= b <= bbound,
    ;
    vstd::arithmetic::div_mod::lemma_div_is_ordered(a * b, abound * bbound, d);
    vstd::arithmetic::mul::lemma_mul_nonnegative(a, b);
    vstd::arithmetic::div_mod::lemma_div_pos_is_pos(a * b, d);
}

/// `x` clamped into `[lo, hi]`.
pub open spec fn spec_clamp(x: int, lo: int, hi: int) -> int
    recommends
        lo <= hi,
{
    if x < lo {
        lo
    } else if x > hi {
        hi
    } else {
        x
    }
}

/// Clamp `x` into `[lo, hi]`.
pub fn clamp(x: u64, lo: u64, hi: u64) -> (r: u64)
    requires
        lo <= hi,
    ensures
        r == spec_clamp(x as int, lo as int, hi as int),
{
    if x < lo {
        lo
    } else if x > hi {
        hi
    } else {
        x
    }
}

/// Clamp a signed value into `[lo, hi]`.
pub fn clamp_i(x: i64, lo: i64, hi: i64) -> (r: i64)
    requires
        lo <= hi,
    ensures
        r == spec_clamp(x as int, lo as int, hi as int),
{
    if x < lo {
        lo
    } else if x > hi {
        hi
    } else {
        x
    }
}

/// The integer square root: the unique `r >= 0` with
/// `r * r <= x < (r + 1) * (r + 1)`.
pub open spec fn spec_isqrt(x: int) -> int {
    choose|r: int| 0 <= r && #[trigger] (r * r) <= x < (r + 1) * (r + 1)
}

/// The integer square root exists for every nonnegative radicand, so
/// [`spec_isqrt`] carries its defining bounds.
pub proof fn lemma_isqrt_exists(x: int)
    requires
        x >= 0,
    ensures
        0 <= spec_isqrt(x),
        spec_isqrt(x) * spec_isqrt(x) <= x,
        (spec_isqrt(x) + 1) * (spec_isqrt(x) + 1) > x,
    decreases x,
{
    if x == 0 {
        assert(0 <= 0 && 0 * 0 <= x < (0 + 1) * (0 + 1));
    } else {
        lemma_isqrt_exists(x - 1);
        let r = spec_isqrt(x - 1);
        if (r + 1) * (r + 1) <= x {
            assert((r + 1) * (r + 1) == x);
            assert(x < (r + 2) * (r + 2)) by (nonlinear_arith)
                requires
                    r >= 0,
                    x == (r + 1) * (r + 1),
            ;
            assert(0 <= r + 1 && (r + 1) * (r + 1) <= x < ((r + 1) + 1) * ((r + 1) + 1));
        } else {
            assert(0 <= r && r * r <= x < (r + 1) * (r + 1));
        }
    }
}

/// The integer square root: the largest `r` with `r * r <= x`.
pub fn isqrt(x: u64) -> (r: u64)
    ensures
        r * r <= x,
        (r + 1) * (r + 1) > x,
        r == spec_isqrt(x as int),
{
    let mut lo: u64 = 0;
    let mut hi: u64 = 4_294_967_296;
    proof {
        assert((4_294_967_296 as int) * (4_294_967_296 as int) > u64::MAX) by (nonlinear_arith);
    }
    while lo + 1 < hi
        invariant
            lo < hi,
            hi <= 4_294_967_296,
            lo * lo <= x,
            hi * hi > x,
        decreases hi - lo,
    {
        let mid = lo + (hi - lo) / 2;
        proof {
            assert(mid * mid <= 0xffff_ffff * 0xffff_ffff) by (nonlinear_arith)
                requires
                    mid <= 0xffff_ffff,
            ;
            assert(0xffff_ffff * 0xffff_ffff <= u64::MAX) by (nonlinear_arith);
        }
        if mid * mid <= x {
            lo = mid;
        } else {
            hi = mid;
        }
    }
    proof {
        lemma_isqrt_exists(x as int);
        lemma_isqrt_unique(x as int, lo as int, spec_isqrt(x as int));
    }
    lo
}

/// Squares compared in place of square roots: the integer square root is
/// the only value its bounds admit, so two equal radicands give one root.
pub proof fn lemma_isqrt_unique(x: int, r1: int, r2: int)
    requires
        r1 >= 0,
        r2 >= 0,
        r1 * r1 <= x < (r1 + 1) * (r1 + 1),
        r2 * r2 <= x < (r2 + 1) * (r2 + 1),
    ensures
        r1 == r2,
{
    assert(r1 == r2) by (nonlinear_arith)
        requires
            r1 >= 0,
            r2 >= 0,
            r1 * r1 <= x < (r1 + 1) * (r1 + 1),
            r2 * r2 <= x < (r2 + 1) * (r2 + 1),
    ;
}

/// The smoothstep easing polynomial `t * t * (3 - 2 * t)` in micro-units.
pub open spec fn spec_smooth_step(t: int) -> int {
    t * t * (3_000_000 - 2 * t) / 1_000_000_000_000
}

/// Smoothstep easing: eases a micro-unit fraction in `[0, 1]` toward its
/// ends, staying within `[0, 1]`.
pub fn smooth_step(t: u64) -> (r: u64)
    requires
        t <= UNIT,
    ensures
        r == spec_smooth_step(t as int),
        r <= UNIT,
{
    proof {
        assert(t * t <= 1_000_000_000_000) by (nonlinear_arith)
            requires
                t <= 1_000_000,
        ;
        assert(t * t * (3_000_000 - 2 * t) <= 3_000_000_000_000_000_000) by (nonlinear_arith)
            requires
                t <= 1_000_000,
        ;
        assert(t * t * (3_000_000 - 2 * t) <= 1_000_000_000_000 * 1_000_000) by (nonlinear_arith)
            requires
                t <= 1_000_000,
        ;
        vstd::arithmetic::div_mod::lemma_div_is_ordered(
            t * t * (3_000_000 - 2 * t),
            (1_000_000_000_000 * 1_000_000) as int,
            1_000_000_000_000,
        );
        assert(1_000_000_000_000 * 1_000_000 / 1_000_000_000_000 == 1_000_000) by (nonlinear_arith);
    }
    let c = t * t;
    let m = 3_000_000 - 2 * t;
    let p = c * m;
    p / 1_000_000_000_000
}

} // verus!
