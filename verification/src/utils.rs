//! Small numeric helpers shared across the engine, and a synthetic
//! signal builder used by the analysis tests.

use vstd::arithmetic::div_mod::{lemma_div_pos_is_pos, lemma_mod_bound, lemma_multiply_divide_le};
use vstd::arithmetic::power2::pow2;
use vstd::prelude::*;

use crate::fixed::{clip, clip_i64, mul_fx, q_mul_sat, SAT, SCALE};
use crate::trig::{sin_fx, sin_spec, TAU};

verus! {

/// The width in Hz (Q32.32) of each bin when the range from 0 to the
/// Nyquist frequency is divided into `num_bins` bins.
pub fn frequency_per_bin(sample_rate: u32, num_bins: usize) -> (r: i64)
    requires
        sample_rate <= 10000000,
        1 <= num_bins <= 1000000000,
    ensures
        r == sample_rate * (SCALE as int) / (2 * num_bins as int),
        0 <= r <= SAT,
{
    let num: i64 = (sample_rate as i64) * SCALE;
    let den: i64 = 2 * (num_bins as i64);
    proof {
        lemma_div_pos_is_pos(num as int, den as int);
        lemma_multiply_divide_le(num as int, den as int, SAT as int);
    }
    num / den
}

/// The largest exponent `k` such that `2^k <= n`, or `None` for zero.
pub fn ilog2(n: usize) -> (r: Option<usize>)
    ensures
        match r {
            None => n == 0,
            Some(k) => k <= 63 && pow2(k as nat) <= n < pow2((k + 1) as nat),
        },
{
    if n == 0 {
        return None;
    }
    let mut m: usize = n;
    let mut result: usize = 0;
    proof {
        vstd::arithmetic::power2::lemma2_to64();
    }
    while m > 1
        invariant
            1 <= m,
            result <= 63,
            pow2(result as nat) * m <= n,
            n < pow2(result as nat) * (m + 1),
        decreases m,
    {
        proof {
            vstd::arithmetic::power2::lemma_pow2_unfold((result + 1) as nat);
            vstd::arithmetic::power2::lemma_pow2_pos(result as nat);
            vstd::arithmetic::div_mod::lemma_fundamental_div_mod(m as int, 2);
            vstd::arithmetic::div_mod::lemma_mod_bound(m as int, 2);
            let p: int = pow2(result as nat) as int;
            let m2: int = (m as int) / 2;
            assert(p * 2 * m2 <= p * m && p * (m + 1) <= p * 2 * (m2 + 1)) by (nonlinear_arith)
                requires
                    p >= 1,
                    m >= 2,
                    2 * m2 <= m < 2 * (m2 + 1),
            ;
            assert(result + 1 <= 63) by {
                vstd::arithmetic::power2::lemma2_to64();
                vstd::arithmetic::power2::lemma2_to64_rest();
                if result == 63 {
                    assert(pow2(63) * m > n) by (nonlinear_arith)
                        requires
                            m >= 2,
                            pow2(63) == 0x8000000000000000,
                            n <= 0xffffffffffffffff,
                    ;
                }
            };
        }
        m = m / 2;
        result = result + 1;
    }
    proof {
        vstd::arithmetic::power2::lemma_pow2_unfold((result + 1) as nat);
        assert(m == 1);
        assert(n < pow2(result as nat) * (m + 1));
        assert(n < pow2((result + 1) as nat)) by (nonlinear_arith)
            requires
                m == 1,
                n < pow2(result as nat) * (m + 1),
                pow2((result + 1) as nat) == 2 * pow2(result as nat),
        ;
    }
    Some(result)
}

/// Round `n` down to the nearest power of two, or `None` for zero.
pub fn floor_to_power_of_2(n: usize) -> (r: Option<usize>)
    ensures
        match r {
            None => n == 0,
            Some(p) => exists|k: nat| p == pow2(k) && p <= n < 2 * p,
        },
{
    let k: usize = match ilog2(n) {
        None => {
            return None;
        },
        Some(k) => k,
    };
    let mut p: usize = 1;
    let mut i: usize = 0;
    proof {
        vstd::arithmetic::power2::lemma2_to64();
    }
    while i < k
        invariant
            i <= k <= 63,
            p == pow2(i as nat),
            pow2(k as nat) <= n < pow2((k + 1) as nat),
        decreases k - i,
    {
        proof {
            vstd::arithmetic::power2::lemma_pow2_unfold((i + 1) as nat);
            if i + 1 < k {
                vstd::arithmetic::power2::lemma_pow2_strictly_increases((i + 1) as nat, k as nat);
            }
            vstd::arithmetic::power2::lemma_pow2_pos((i + 1) as nat);
        }
        p = p * 2;
        i = i + 1;
    }
    proof {
        vstd::arithmetic::power2::lemma_pow2_unfold((k + 1) as nat);
        assert(p == pow2(k as nat) && p <= n < 2 * p);
    }
    Some(p)
}

/// The Q32.32 phase, reduced into `[0, TAU)`, of partial `p` at sample
/// `i`: the partial's starting phase (in cycles) plus `i` steps of its
/// per-sample angular increment.
pub open spec fn partial_phase(p: (i64, i64, i64), sample_rate: int, i: int) -> int {
    let base: int = (p.2 * TAU) / (SCALE as int);
    let step: int = (TAU * p.0) / (sample_rate * (SCALE as int));
    (base + i * step) % (TAU as int)
}

/// The accumulated sample value at index `i` after summing the listed
/// partials in order, each sum saturated.
pub open spec fn built_sample(partials: Seq<(i64, i64, i64)>, sample_rate: int, i: int) -> int
    decreases partials.len(),
{
    if partials.len() == 0 {
        0
    } else {
        let prev: int = built_sample(partials.drop_last(), sample_rate, i);
        let p = partials.last();
        clip(
            prev + q_mul_sat(p.1 as int, sin_spec(partial_phase(p, sample_rate, i))),
            -(SAT as int),
            SAT as int,
        )
    }
}

/// Build a synthetic signal as a sum of sine partials, each given as
/// `(frequency in Hz, amplitude, starting phase in cycles)`, all Q32.32.
pub fn build_sample(partials: &[(i64, i64, i64)], size: usize, sample_rate: u32) -> (r: Vec<i64>)
    requires
        1 <= sample_rate <= 10000000,
        size <= 1000000000,
        forall|j: int|
            0 <= j < partials.len() ==> {
                &&& 0 <= (#[trigger] partials@[j]).0 <= sample_rate * (SCALE as int)
                &&& -SAT <= partials@[j].1 <= SAT
                &&& 0 <= partials@[j].2 < SCALE
            },
    ensures
        r.len() == size,
        forall|i: int|
            0 <= i < size ==> #[trigger] r@[i] == built_sample(
                partials@,
                sample_rate as int,
                i,
            ),
{
    let mut sample: Vec<i64> = Vec::new();
    let mut i: usize = 0;
    while i < size
        invariant
            i <= size,
            sample.len() == i,
            forall|t: int| 0 <= t < i ==> #[trigger] sample@[t] == 0i64,
        decreases size - i,
    {
        sample.push(0);
        i = i + 1;
    }
    proof {
        assert(partials@.subrange(0, 0) =~= Seq::<(i64, i64, i64)>::empty());
    }
    let mut j: usize = 0;
    while j < partials.len()
        invariant
            j <= partials.len(),
            sample.len() == size,
            1 <= sample_rate <= 10000000,
            size <= 1000000000,
            forall|t: int|
                0 <= t < partials.len() ==> {
                    &&& 0 <= (#[trigger] partials@[t]).0 <= sample_rate * (SCALE as int)
                    &&& -SAT <= partials@[t].1 <= SAT
                    &&& 0 <= partials@[t].2 < SCALE
                },
            forall|t: int|
                0 <= t < size ==> #[trigger] sample@[t] == built_sample(
                    partials@.subrange(0, j as int),
                    sample_rate as int,
                    t,
                ),
            forall|t: int| 0 <= t < size ==> -SAT <= #[trigger] sample@[t] <= SAT,
        decreases partials.len() - j,
    {
        let p: (i64, i64, i64) = partials[j];
        proof {
            crate::fixed::lemma_mul_bounds(p.2 as int, TAU as int, SCALE as int, TAU as int);
            crate::fixed::lemma_mul_bounds(
                TAU as int,
                p.0 as int,
                TAU as int,
                10000000 * (SCALE as int),
            );
        }
        let base_wide: i128 = (p.2 as i128) * (TAU as i128);
        let step_wide: i128 = (TAU as i128) * (p.0 as i128);
        let den: i128 = (sample_rate as i128) * (SCALE as i128);
        proof {
            let srs: int = sample_rate * (SCALE as int);
            assert(base_wide == p.2 * TAU && base_wide <= (SCALE as int) * (TAU as int)
                && step_wide == TAU * p.0 && den == srs && srs >= SCALE && step_wide <= srs * (
            TAU as int)) by (nonlinear_arith)
                requires
                    base_wide == (p.2 as int) * (TAU as int),
                    step_wide == (TAU as int) * (p.0 as int),
                    den == (sample_rate as int) * (SCALE as int),
                    srs == sample_rate * (SCALE as int),
                    1 <= sample_rate,
                    0 <= p.2 < SCALE,
                    0 <= p.0 <= srs,
                    TAU > 0,
                    SCALE > 0,
            ;
            lemma_div_pos_is_pos(base_wide as int, SCALE as int);
            lemma_multiply_divide_le(base_wide as int, SCALE as int, TAU as int);
            lemma_div_pos_is_pos(step_wide as int, den as int);
            lemma_multiply_divide_le(step_wide as int, den as int, TAU as int);
        }
        let base: i64 = (base_wide / (SCALE as i128)) as i64;
        let step: i64 = (step_wide / den) as i64;
        let ghost prefix: Seq<(i64, i64, i64)> = partials@.subrange(0, j as int);
        let mut t: usize = 0;
        while t < size
            invariant
                t <= size,
                sample.len() == size,
                size <= 1000000000,
                0 <= base <= TAU,
                0 <= step <= TAU,
                base == (p.2 * TAU) / (SCALE as int),
                step == (TAU * p.0) / (sample_rate * (SCALE as int)),
                p == partials@[j as int],
                0 <= j < partials.len(),
                prefix == partials@.subrange(0, j as int),
                -SAT <= p.1 <= SAT,
                forall|u: int|
                    t <= u < size ==> #[trigger] sample@[u] == built_sample(
                        prefix,
                        sample_rate as int,
                        u,
                    ),
                forall|u: int|
                    0 <= u < t ==> #[trigger] sample@[u] == built_sample(
                        prefix.push(p),
                        sample_rate as int,
                        u,
                    ),
                forall|u: int| 0 <= u < size ==> -SAT <= #[trigger] sample@[u] <= SAT,
            decreases size - t,
        {
            proof {
                assert(0 <= (t as int) * (step as int) <= 1000000000 * (TAU as int))
                    by (nonlinear_arith)
                    requires
                        0 <= t <= 1000000000,
                        0 <= step <= TAU,
                ;
            }
            let total: i128 = (base as i128) + (t as i128) * (step as i128);
            proof {
                lemma_mod_bound(total as int, TAU as int);
            }
            let ph: i64 = (total % (TAU as i128)) as i64;
            let part_out: i64 = mul_fx(p.1, sin_fx(ph));
            let prev: i64 = sample[t];
            let updated: i64 = clip_i64(prev + part_out, -SAT, SAT);
            sample.set(t, updated);
            proof {
                assert(prefix.push(p).drop_last() =~= prefix);
                assert(prefix.push(p).last() == p);
            }
            t = t + 1;
        }
        proof {
            assert(partials@.subrange(0, (j + 1) as int) =~= prefix.push(p));
        }
        j = j + 1;
    }
    proof {
        assert(partials@.subrange(0, partials@.len() as int) =~= partials@);
    }
    sample
}

} // verus!
