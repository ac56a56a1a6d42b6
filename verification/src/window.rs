//! The Hann analysis window.
//!
//! The coefficient for index `i` of an `n`-point window is
//! `0.5 * (1 - cos(2π * i / (n - 1)))`, so the window starts and ends at
//! zero and peaks at one in the middle.

use vstd::arithmetic::div_mod::{lemma_div_pos_is_pos, lemma_multiply_divide_le};
use vstd::prelude::*;

use crate::fixed::{mul_fx, q_mul_sat, SAT, SCALE};
use crate::trig::{cos_fx, cos_spec, TAU};

verus! {

/// The Q32.32 Hann coefficient for index `i` of an `n`-point window.
pub open spec fn hann_coeff(i: int, n: int) -> int {
    let angle: int = (TAU * i) / (n - 1);
    let reduced: int = if angle >= TAU {
        angle - TAU
    } else {
        angle
    };
    (SCALE - cos_spec(reduced)) / 2
}

/// Multiply each sample of the frame by its Hann coefficient.
pub fn apply_hanning_window(frame: &[i64]) -> (r: Vec<i64>)
    requires
        2 <= frame.len() <= 1000000000,
    ensures
        r.len() == frame.len(),
        forall|i: int|
            0 <= i < r.len() ==> #[trigger] r@[i] == q_mul_sat(
                frame@[i] as int,
                hann_coeff(i, frame.len() as int),
            ),
        forall|i: int| 0 <= i < r.len() ==> -SAT <= #[trigger] r@[i] <= SAT,
{
    let n: usize = frame.len();
    let mut out: Vec<i64> = Vec::new();
    let mut i: usize = 0;
    while i < n
        invariant
            2 <= n <= 1000000000,
            n == frame.len(),
            i <= n,
            out.len() == i,
            forall|j: int|
                0 <= j < i ==> #[trigger] out@[j] == q_mul_sat(
                    frame@[j] as int,
                    hann_coeff(j, n as int),
                ),
            forall|j: int| 0 <= j < i ==> -SAT <= #[trigger] out@[j] <= SAT,
        decreases n - i,
    {
        let num: i128 = (TAU as i128) * (i as i128);
        let den: i128 = (n as i128) - 1;
        let angle_wide: i128 = num / den;
        proof {
            assert(num == (TAU as int) * (i as int) && num <= den * (TAU as int))
                by (nonlinear_arith)
                requires
                    num == (TAU as int) * (i as int),
                    den == n - 1,
                    0 <= i <= n - 1,
                    TAU > 0,
            ;
            lemma_div_pos_is_pos(num as int, den as int);
            lemma_multiply_divide_le(num as int, den as int, TAU as int);
        }
        let angle: i64 = angle_wide as i64;
        let reduced: i64 = if angle >= TAU {
            angle - TAU
        } else {
            angle
        };
        let c: i64 = cos_fx(reduced);
        let w: i64 = (SCALE - c) / 2;
        proof {
            lemma_div_pos_is_pos(SCALE - c, 2);
        }
        out.push(mul_fx(frame[i], w));
        i = i + 1;
    }
    out
}

} // verus!
