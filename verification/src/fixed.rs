//! Q32.32 fixed-point arithmetic.
//!
//! A signal value `x` is stored as the `i64` value `x * 2^32`. Products
//! are computed in `i128` and renormalized by `2^32` with truncation
//! toward zero; results are saturated into `[-SAT, SAT]` so that every
//! operation is total and the whole engine is free of overflow.

use vstd::prelude::*;

verus! {

/// One in Q32.32: the fixed-point scale factor `2^32`.
pub const SCALE: i64 = 4294967296;

/// Saturation bound for fixed-point results: `2^56`, roughly 1.6e7 in
/// real-value terms, far above every quantity the engine works with
/// (frequencies stay below half the sample rate).
pub const SAT: i64 = 72057594037927936;

/// Division truncating toward zero, the behaviour of `/` on Rust's
/// signed integers (spec-level `/` alone is Euclidean).
pub open spec fn div_trunc(a: int, b: int) -> int {
    if a >= 0 {
        a / b
    } else {
        -((-a) / b)
    }
}

/// Clamp `v` into `[lo, hi]`.
pub open spec fn clip(v: int, lo: int, hi: int) -> int {
    if v < lo {
        lo
    } else if v > hi {
        hi
    } else {
        v
    }
}

/// The fixed-point product `a * b / 2^32`, truncated toward zero.
pub open spec fn q_mul(a: int, b: int) -> int {
    div_trunc(a * b, SCALE as int)
}

/// The fixed-point product, saturated into `[-SAT, SAT]`.
pub open spec fn q_mul_sat(a: int, b: int) -> int {
    clip(q_mul(a, b), -(SAT as int), SAT as int)
}

/// The fixed-point quotient `a * 2^32 / b`, truncated toward zero and
/// saturated into `[-SAT, SAT]`.
pub open spec fn q_div_sat(a: int, b: int) -> int {
    clip(div_trunc(a * (SCALE as int), b), -(SAT as int), SAT as int)
}

/// `x * y` is bounded by the product of the operands' bounds.
pub proof fn lemma_mul_bounds(x: int, y: int, mx: int, my: int)
    requires
        -mx <= x <= mx,
        -my <= y <= my,
        0 <= mx,
        0 <= my,
    ensures
        -(mx * my) <= x * y <= mx * my,
{
    assert(-(mx * my) <= x * y <= mx * my) by (nonlinear_arith)
        requires
            -mx <= x <= mx,
            -my <= y <= my,
            0 <= mx,
            0 <= my,
    ;
}

/// Truncating division shrinks the magnitude: `|a / b| <= |a|` for `b >= 1`.
pub proof fn lemma_div_trunc_bounds(a: int, b: int)
    requires
        b >= 1,
    ensures
        a >= 0 ==> 0 <= div_trunc(a, b) <= a,
        a < 0 ==> a <= div_trunc(a, b) <= 0,
{
    if a >= 0 {
        assert(0 <= a / b <= a) by (nonlinear_arith)
            requires
                a >= 0,
                b >= 1,
        ;
    } else {
        assert(0 <= (-a) / b <= -a) by (nonlinear_arith)
            requires
                -a > 0,
                b >= 1,
        ;
    }
}

/// A fixed-point product of nonnegative factors is nonnegative.
pub proof fn lemma_q_mul_sat_nonneg(a: int, b: int)
    requires
        0 <= a,
        0 <= b,
    ensures
        0 <= q_mul_sat(a, b) <= SAT,
{
    assert(a * b >= 0) by (nonlinear_arith)
        requires
            a >= 0,
            b >= 0,
    ;
    vstd::arithmetic::div_mod::lemma_div_pos_is_pos(a * b, SCALE as int);
}

/// The saturating fixed-point product is monotone in a nonnegative
/// first factor.
pub proof fn lemma_q_mul_sat_monotone(a: int, b: int, c: int)
    requires
        0 <= a <= b,
        0 <= c,
    ensures
        q_mul_sat(a, c) <= q_mul_sat(b, c),
{
    assert(0 <= a * c <= b * c) by (nonlinear_arith)
        requires
            0 <= a <= b,
            0 <= c,
    ;
    vstd::arithmetic::div_mod::lemma_div_is_ordered(a * c, b * c, SCALE as int);
    vstd::arithmetic::div_mod::lemma_div_pos_is_pos(a * c, SCALE as int);
}

/// Clamp `v` into `[lo, hi]`.
pub fn clip_i64(v: i64, lo: i64, hi: i64) -> (r: i64)
    requires
        lo <= hi,
    ensures
        r == clip(v as int, lo as int, hi as int),
{
    if v < lo {
        lo
    } else if v > hi {
        hi
    } else {
        v
    }
}

/// Saturating fixed-point multiplication: `clip(a * b / 2^32, -SAT, SAT)`.
pub fn mul_fx(a: i64, b: i64) -> (r: i64)
    ensures
        r == q_mul_sat(a as int, b as int),
        -SAT <= r <= SAT,
{
    proof {
        lemma_mul_bounds(a as int, b as int, 0x8000_0000_0000_0000, 0x8000_0000_0000_0000);
    }
    let p: i128 = (a as i128) * (b as i128);
    let d: i128 = p / 4294967296i128;
    proof {
        lemma_div_trunc_bounds(p as int, SCALE as int);
    }
    if d > SAT as i128 {
        SAT
    } else if d < -(SAT as i128) {
        -SAT
    } else {
        d as i64
    }
}

/// Saturating fixed-point division: `clip(a * 2^32 / b, -SAT, SAT)`.
/// The divisor must be positive.
pub fn div_fx(a: i64, b: i64) -> (r: i64)
    requires
        b >= 1,
    ensures
        r == q_div_sat(a as int, b as int),
        -SAT <= r <= SAT,
{
    proof {
        lemma_mul_bounds(a as int, SCALE as int, 0x8000_0000_0000_0000, SCALE as int);
    }
    let p: i128 = (a as i128) * (SCALE as i128);
    let d: i128 = p / (b as i128);
    proof {
        lemma_div_trunc_bounds(p as int, b as int);
    }
    if d > SAT as i128 {
        SAT
    } else if d < -(SAT as i128) {
        -SAT
    } else {
        d as i64
    }
}

} // verus!
