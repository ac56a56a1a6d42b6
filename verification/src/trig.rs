//! Fixed-point sine, cosine and base-2 exponential.
//!
//! Angles are Q32.32 radians. A full turn is the constant [`TAU`], chosen
//! as an exact multiple of [`QUARTER`] so that quadrant reduction is exact.
//! The quarter-wave sine and the exponential are truncated power series
//! evaluated in Horner form; their absolute error against the real
//! functions is below `4e-6`, far inside the engine's audio tolerances.

use vstd::arithmetic::div_mod::{
    lemma_div_denominator, lemma_div_is_ordered, lemma_div_pos_is_pos, lemma_multiply_divide_le,
};
use vstd::arithmetic::power2::pow2;
use vstd::prelude::*;

use crate::fixed::{lemma_mul_bounds, mul_fx, q_mul, SCALE};

verus! {

/// A quarter turn: `(π/2) * 2^32`.
pub const QUARTER: i64 = 6746518852;

/// Half a turn: `π * 2^32`, exactly `2 * QUARTER`.
pub const PI_FX: i64 = 13493037704;

/// A full turn: `2π * 2^32`, exactly `4 * QUARTER`.
pub const TAU: i64 = 26986075408;

/// `ln 2 * 2^32`.
pub const LN2: i64 = 2977044472;

/// For `a >= 0` and `0 <= b <= m * SCALE`, the fixed-point product
/// `(a * b) / SCALE` lies in `[0, m * a]`.
proof fn lemma_q_mul_scaled(a: int, b: int, m: int)
    requires
        0 <= a,
        0 <= m,
        0 <= b <= m * SCALE,
    ensures
        0 <= q_mul(a, b) <= m * a,
        q_mul(a, b) == (a * b) / (SCALE as int),
{
    assert(0 <= a * b <= SCALE * (m * a)) by (nonlinear_arith)
        requires
            0 <= a,
            0 <= m,
            0 <= b <= m * SCALE,
    ;
    lemma_div_pos_is_pos(a * b, SCALE as int);
    lemma_multiply_divide_le(a * b, SCALE as int, m * a);
}

/// The quarter-wave sine: for `x` in `[0, QUARTER]`, a Q32.32
/// approximation of `sin(x / 2^32) * 2^32` by the odd power series up to
/// the ninth power, evaluated in Horner form with truncating fixed-point
/// steps and capped at one.
pub open spec fn sin_quarter_spec(x: int) -> int {
    let x2: int = (x * x) / (SCALE as int);
    let f1: int = SCALE - x2 / 72;
    let f2: int = SCALE - ((x2 * f1) / (SCALE as int)) / 42;
    let f3: int = SCALE - ((x2 * f2) / (SCALE as int)) / 20;
    let f4: int = SCALE - ((x2 * f3) / (SCALE as int)) / 6;
    let s: int = (x * f4) / (SCALE as int);
    if s > SCALE {
        SCALE as int
    } else {
        s
    }
}

/// Computes [`sin_quarter_spec`].
pub fn sin_quarter_fx(x: i64) -> (r: i64)
    requires
        0 <= x <= QUARTER,
    ensures
        r == sin_quarter_spec(x as int),
        0 <= r <= SCALE,
{
    let x2: i64 = mul_fx(x, x);
    proof {
        lemma_mul_bounds(x as int, x as int, QUARTER as int, QUARTER as int);
        lemma_q_mul_scaled(x as int, x as int, 3);
        lemma_multiply_divide_le(x as int * x as int, SCALE as int, 3 * SCALE);
        lemma_div_pos_is_pos(x2 as int, 72);
        lemma_multiply_divide_le(x2 as int, 72, SCALE as int);
    }
    let f1: i64 = SCALE - x2 / 72;
    let g1: i64 = mul_fx(x2, f1);
    proof {
        lemma_q_mul_scaled(x2 as int, f1 as int, 1);
        lemma_div_pos_is_pos(g1 as int, 42);
        lemma_multiply_divide_le(g1 as int, 42, SCALE as int);
    }
    let f2: i64 = SCALE - g1 / 42;
    let g2: i64 = mul_fx(x2, f2);
    proof {
        lemma_q_mul_scaled(x2 as int, f2 as int, 1);
        lemma_div_pos_is_pos(g2 as int, 20);
        lemma_multiply_divide_le(g2 as int, 20, SCALE as int);
    }
    let f3: i64 = SCALE - g2 / 20;
    let g3: i64 = mul_fx(x2, f3);
    proof {
        lemma_q_mul_scaled(x2 as int, f3 as int, 1);
        lemma_div_pos_is_pos(g3 as int, 6);
        lemma_multiply_divide_le(g3 as int, 6, SCALE as int);
    }
    let f4: i64 = SCALE - g3 / 6;
    let s: i64 = mul_fx(x, f4);
    proof {
        lemma_q_mul_scaled(x as int, f4 as int, 1);
    }
    if s > SCALE {
        SCALE
    } else {
        s
    }
}

/// The sine of a phase in `[0, TAU)`, by quadrant reduction onto the
/// quarter-wave approximation.
pub open spec fn sin_spec(phase: int) -> int {
    if phase < QUARTER {
        sin_quarter_spec(phase)
    } else if phase < PI_FX {
        sin_quarter_spec(PI_FX - phase)
    } else if phase < PI_FX + QUARTER {
        -sin_quarter_spec(phase - PI_FX)
    } else {
        -sin_quarter_spec(TAU - phase)
    }
}

/// Computes [`sin_spec`].
pub fn sin_fx(phase: i64) -> (r: i64)
    requires
        0 <= phase < TAU,
    ensures
        r == sin_spec(phase as int),
        -SCALE <= r <= SCALE,
{
    if phase < QUARTER {
        sin_quarter_fx(phase)
    } else if phase < PI_FX {
        sin_quarter_fx(PI_FX - phase)
    } else if phase < PI_FX + QUARTER {
        -sin_quarter_fx(phase - PI_FX)
    } else {
        -sin_quarter_fx(TAU - phase)
    }
}

/// The cosine of a phase in `[0, TAU)`: the sine a quarter turn ahead.
pub open spec fn cos_spec(phase: int) -> int {
    if phase + QUARTER < TAU {
        sin_spec(phase + QUARTER)
    } else {
        sin_spec(phase + QUARTER - TAU)
    }
}

/// Computes [`cos_spec`].
pub fn cos_fx(phase: i64) -> (r: i64)
    requires
        0 <= phase < TAU,
    ensures
        r == cos_spec(phase as int),
        -SCALE <= r <= SCALE,
{
    if phase + QUARTER < TAU {
        sin_fx(phase + QUARTER)
    } else {
        sin_fx(phase + QUARTER - TAU)
    }
}

/// `e^u` for `u` in `[0, LN2]`: the power series up to the seventh power
/// in Horner form with truncating fixed-point steps. The result lies in
/// `[SCALE, 3 * SCALE]`.
pub open spec fn exp_unit_spec(u: int) -> int {
    let p7: int = SCALE + u / 7;
    let p6: int = SCALE + ((u * p7) / (SCALE as int)) / 6;
    let p5: int = SCALE + ((u * p6) / (SCALE as int)) / 5;
    let p4: int = SCALE + ((u * p5) / (SCALE as int)) / 4;
    let p3: int = SCALE + ((u * p4) / (SCALE as int)) / 3;
    let p2: int = SCALE + ((u * p3) / (SCALE as int)) / 2;
    SCALE + (u * p2) / (SCALE as int)
}

/// Computes [`exp_unit_spec`].
fn exp_unit_fx(u: i64) -> (r: i64)
    requires
        0 <= u <= LN2,
    ensures
        r == exp_unit_spec(u as int),
        SCALE <= r <= 3 * SCALE,
{
    proof {
        lemma_div_pos_is_pos(u as int, 7);
        lemma_multiply_divide_le(u as int, 7, SCALE as int);
    }
    let p7: i64 = SCALE + u / 7;
    let q7: i64 = mul_fx(u, p7);
    proof {
        lemma_q_mul_scaled(u as int, p7 as int, 2);
        lemma_div_pos_is_pos(q7 as int, 6);
        lemma_multiply_divide_le(q7 as int, 6, SCALE as int);
    }
    let p6: i64 = SCALE + q7 / 6;
    let q6: i64 = mul_fx(u, p6);
    proof {
        lemma_q_mul_scaled(u as int, p6 as int, 2);
        lemma_div_pos_is_pos(q6 as int, 5);
        lemma_multiply_divide_le(q6 as int, 5, SCALE as int);
    }
    let p5: i64 = SCALE + q6 / 5;
    let q5: i64 = mul_fx(u, p5);
    proof {
        lemma_q_mul_scaled(u as int, p5 as int, 2);
        lemma_div_pos_is_pos(q5 as int, 4);
        lemma_multiply_divide_le(q5 as int, 4, SCALE as int);
    }
    let p4: i64 = SCALE + q5 / 4;
    let q4: i64 = mul_fx(u, p4);
    proof {
        lemma_q_mul_scaled(u as int, p4 as int, 2);
        lemma_div_pos_is_pos(q4 as int, 3);
        lemma_multiply_divide_le(q4 as int, 3, SCALE as int);
    }
    let p3: i64 = SCALE + q4 / 3;
    let q3: i64 = mul_fx(u, p3);
    proof {
        lemma_q_mul_scaled(u as int, p3 as int, 2);
        lemma_div_pos_is_pos(q3 as int, 2);
        lemma_multiply_divide_le(q3 as int, 2, SCALE as int);
    }
    let p2: i64 = SCALE + q3 / 2;
    let q2: i64 = mul_fx(u, p2);
    proof {
        lemma_q_mul_scaled(u as int, p2 as int, 2);
    }
    SCALE + q2
}

/// `2^(x / 2^32) * 2^32` for `x` in `[-8 * SCALE, 8 * SCALE]`: the
/// fractional part goes through [`exp_unit_spec`], the integer part
/// becomes a power-of-two scaling.
pub open spec fn exp2_spec(x: int) -> int {
    let y: int = x + 8 * SCALE;
    let n: int = y / (SCALE as int);
    let f: int = y % (SCALE as int);
    let u: int = (f * LN2) / (SCALE as int);
    let p: int = exp_unit_spec(u);
    if n >= 8 {
        p * pow2((n - 8) as nat)
    } else {
        (p as int) / (pow2((8 - n) as nat) as int)
    }
}

/// Computes [`exp2_spec`].
pub fn exp2_fx(x: i64) -> (r: i64)
    requires
        -8 * SCALE <= x <= 8 * SCALE,
    ensures
        r == exp2_spec(x as int),
        16777216 <= r <= 768 * SCALE,
{
    let y: i64 = x + 8 * SCALE;
    proof {
        lemma_div_pos_is_pos(y as int, SCALE as int);
        lemma_multiply_divide_le(y as int, SCALE as int, 16);
    }
    let n: i64 = y / SCALE;
    let f: i64 = y % SCALE;
    let u: i64 = mul_fx(f, LN2);
    proof {
        lemma_q_mul_scaled(f as int, LN2 as int, 1);
        lemma_multiply_divide_le((f as int) * (LN2 as int), SCALE as int, LN2 as int);
    }
    let p: i64 = exp_unit_fx(u);
    if n >= 8 {
        let mut r: i64 = p;
        let mut i: i64 = 0;
        proof {
            vstd::arithmetic::power2::lemma2_to64();
        }
        while i < n - 8
            invariant
                0 <= i <= n - 8 <= 8,
                SCALE <= p <= 3 * SCALE,
                r == p * pow2(i as nat),
                r <= 3 * SCALE * 256,
            decreases n - 8 - i,
        {
            proof {
                vstd::arithmetic::power2::lemma_pow2_unfold((i + 1) as nat);
                assert(pow2((i + 1) as nat) <= 256) by {
                    vstd::arithmetic::power2::lemma2_to64();
                    if i + 1 < 8 {
                        vstd::arithmetic::power2::lemma_pow2_strictly_increases((i + 1) as nat, 8);
                    }
                };
                assert(p * pow2((i + 1) as nat) == (p * pow2(i as nat)) * 2) by (nonlinear_arith)
                    requires
                        pow2((i + 1) as nat) == pow2(i as nat) * 2,
                ;
                assert(p * pow2((i + 1) as nat) <= 3 * SCALE * 256) by (nonlinear_arith)
                    requires
                        SCALE <= p <= 3 * SCALE,
                        0 <= pow2((i + 1) as nat) <= 256,
                ;
            }
            r = r * 2;
            i = i + 1;
        }
        proof {
            assert(r >= p * 1) by (nonlinear_arith)
                requires
                    r == p * pow2((n - 8) as nat),
                    p >= 0,
                    pow2((n - 8) as nat) >= 1,
            ;
            vstd::arithmetic::power2::lemma_pow2_pos((n - 8) as nat);
        }
        r
    } else {
        let mut r: i64 = p;
        let mut i: i64 = 0;
        proof {
            vstd::arithmetic::power2::lemma2_to64();
            vstd::arithmetic::div_mod::lemma_div_multiples_vanish(p as int, 1);
        }
        while i < 8 - n
            invariant
                0 <= i <= 8 - n <= 8,
                SCALE <= p <= 3 * SCALE,
                r == (p as int) / (pow2(i as nat) as int),
                0 <= r <= 3 * SCALE,
            decreases 8 - n - i,
        {
            proof {
                vstd::arithmetic::power2::lemma_pow2_pos(i as nat);
                vstd::arithmetic::power2::lemma_pow2_unfold((i + 1) as nat);
                lemma_div_pos_is_pos(r as int, 2);
                lemma_div_denominator(p as int, pow2(i as nat) as int, 2);
            }
            r = r / 2;
            i = i + 1;
        }
        proof {
            vstd::arithmetic::power2::lemma_pow2_pos((8 - n) as nat);
            assert(pow2((8 - n) as nat) <= 256) by {
                vstd::arithmetic::power2::lemma2_to64();
                if 8 - n < 8 {
                    vstd::arithmetic::power2::lemma_pow2_strictly_increases((8 - n) as nat, 8);
                }
            };
            assert(r >= 16777216) by {
                lemma_div_is_ordered(SCALE as int, p as int, pow2((8 - n) as nat) as int);
                lemma_div_is_ordered_by_denominator_wrap(
                    SCALE as int,
                    pow2((8 - n) as nat) as int,
                    256,
                );
                assert(SCALE as int / 256 == 16777216);
            };
        }
        r
    }
}

/// `x / a >= x / b` for `x >= 0` and `0 < a <= b`.
proof fn lemma_div_is_ordered_by_denominator_wrap(x: int, a: int, b: int)
    requires
        0 <= x,
        0 < a <= b,
    ensures
        x / a >= x / b,
{
    vstd::arithmetic::div_mod::lemma_div_is_ordered_by_denominator(x, a, b);
}

} // verus!
