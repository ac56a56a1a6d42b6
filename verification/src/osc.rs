//! Stateful sine oscillator with a phase accumulator and an
//! anti-aliasing amplitude rolloff.
//!
//! The angular frequency is Q32.32 radians per sample; the phase wraps
//! into `[0, TAU)`. The rolloff gain is one below 18 kHz and decays
//! linearly (slope 1/4000 per Hz) above it, clamped into `[0, 1]`.

use vstd::arithmetic::div_mod::{lemma_div_pos_is_pos, lemma_multiply_divide_le};
use vstd::prelude::*;

use crate::fixed::{clip, clip_i64, div_trunc, mul_fx, q_mul_sat, SAT, SCALE};
use crate::trig::{sin_fx, sin_spec, PI_FX, TAU};

verus! {

/// The anti-aliasing gain for a (clamped, Q32.32) frequency in Hz:
/// one below 18 kHz, then `5.5 - hz / 4000` clamped into `[0, 1]`.
pub open spec fn lowpass_spec(hz: int) -> int {
    if hz > 18000 * SCALE {
        clip(23622320128 - div_trunc(hz, 4000), 0, SCALE as int)
    } else {
        SCALE as int
    }
}

/// Computes [`lowpass_spec`].
fn get_lowpass_amp(hz: i64) -> (r: i64)
    requires
        0 <= hz,
    ensures
        r == lowpass_spec(hz as int),
        0 <= r <= SCALE,
{
    if hz > 18000 * SCALE {
        proof {
            lemma_div_pos_is_pos(hz as int, 4000);
        }
        clip_i64(23622320128 - hz / 4000, 0, SCALE)
    } else {
        SCALE
    }
}

/// A frequency in Hz (Q32.32) clamped into `[20, sample_rate / 2]`.
pub open spec fn clamped_hz(hz: int, sample_rate: int) -> int {
    clip(hz, 20 * SCALE, sample_rate * (SCALE as int) / 2)
}

/// The angular frequency, in Q32.32 radians per sample, for a clamped
/// frequency in Hz: `2π * hz / sample_rate` with truncating division.
pub open spec fn omega_spec(hz: int, sample_rate: int) -> int {
    (TAU * clamped_hz(hz, sample_rate)) / (sample_rate * (SCALE as int))
}

/// A phase sum folded back below a full turn.
pub open spec fn wrapped_phase(p: int) -> int {
    if p < TAU {
        p
    } else {
        p - TAU
    }
}

/// The angular frequency of any input frequency stays within half a
/// turn per sample, and the rolloff gain within `[0, 1]`.
pub proof fn lemma_omega_bounds(hz: int, sample_rate: int)
    requires
        40 <= sample_rate <= 10000000,
    ensures
        0 <= omega_spec(hz, sample_rate) <= PI_FX,
        0 <= lowpass_spec(clamped_hz(hz, sample_rate)) <= SCALE,
        0 <= clamped_hz(hz, sample_rate),
{
    let srs: int = sample_rate * (SCALE as int);
    let hi: int = srs / 2;
    assert(40 * (SCALE as int) <= srs <= 10000000 * (SCALE as int)) by (nonlinear_arith)
        requires
            40 <= sample_rate <= 10000000,
            SCALE > 0,
            srs == sample_rate * (SCALE as int),
    ;
    vstd::arithmetic::div_mod::lemma_div_pos_is_pos(srs, 2);
    vstd::arithmetic::div_mod::lemma_div_is_ordered(40 * (SCALE as int), srs, 2);
    assert(40 * (SCALE as int) / 2 == 20 * (SCALE as int));
    vstd::arithmetic::div_mod::lemma_fundamental_div_mod(srs, 2);
    vstd::arithmetic::div_mod::lemma_mod_bound(srs, 2);
    let ch: int = clamped_hz(hz, sample_rate);
    assert(20 * (SCALE as int) <= ch <= hi);
    assert(0 <= TAU * ch && TAU * ch <= srs * (PI_FX as int)) by (nonlinear_arith)
        requires
            0 <= ch,
            2 * ch <= srs,
            TAU == 2 * PI_FX,
            PI_FX > 0,
            srs > 0,
    ;
    lemma_div_pos_is_pos(TAU * ch, srs);
    lemma_multiply_divide_le(TAU * ch, srs, PI_FX as int);
}

#[derive(Clone, Copy, Debug)]
pub struct SinOsc {
    /// Angular frequency: Q32.32 radians per sample.
    pub frequency: i64,
    pub amplitude: i64,
    pub phase: i64,
    /// Anti-aliasing gain multiplier in `[0, 1]`.
    pub lowpass_amp: i64,
}

impl SinOsc {
    pub open spec fn wf(self) -> bool {
        &&& 0 <= self.frequency <= TAU
        &&& 0 <= self.phase < TAU
        &&& -SAT <= self.amplitude <= SAT
        &&& 0 <= self.lowpass_amp <= SCALE
    }

    /// The sample produced by one call to [`Self::next`].
    pub open spec fn out_value(o: SinOsc) -> int {
        q_mul_sat(q_mul_sat(sin_spec(o.phase as int), o.amplitude as int), o.lowpass_amp as int)
    }

    /// The whole state after one call to [`Self::next`]: only the phase
    /// advances.
    pub open spec fn stepped(o: SinOsc) -> SinOsc {
        SinOsc {
            phase: wrapped_phase(o.phase + o.frequency) as i64,
            ..o
        }
    }

    pub fn new(frequency: i64, amplitude: i64, phase: i64) -> (r: Self)
        requires
            0 <= frequency <= TAU,
            -SAT <= amplitude <= SAT,
            0 <= phase < TAU,
        ensures
            r == (SinOsc { frequency, amplitude, phase, lowpass_amp: SCALE }),
            r.wf(),
    {
        Self { frequency, amplitude, phase, lowpass_amp: SCALE }
    }

    /// Set the frequency from a value in Hz, clamped into
    /// `[20, sample_rate / 2]`, and recompute the anti-aliasing gain.
    pub fn set_frequency_hz(&mut self, hz: i64, sample_rate: u32)
        requires
            old(self).wf(),
            40 <= sample_rate <= 10000000,
        ensures
            *final(self) == (SinOsc {
                frequency: omega_spec(hz as int, sample_rate as int) as i64,
                lowpass_amp: lowpass_spec(clamped_hz(hz as int, sample_rate as int)) as i64,
                ..*old(self)
            }),
            final(self).wf(),
    {
        let half_scale: i64 = SCALE / 2;
        let hi: i64 = (sample_rate as i64) * half_scale;
        let hz_c: i64 = clip_i64(hz, 20 * SCALE, hi);
        proof {
            vstd::arithmetic::div_mod::lemma_div_multiples_vanish(hi as int, 2);
            assert(2 * (hi as int) == sample_rate * (SCALE as int)) by (nonlinear_arith)
                requires
                    hi == sample_rate * ((SCALE as int) / 2),
            ;
        }
        let num: i128 = (TAU as i128) * (hz_c as i128);
        let den: i128 = (sample_rate as i128) * (SCALE as i128);
        let omega: i128 = num / den;
        proof {
            let srs: int = sample_rate * (SCALE as int);
            assert(0 < srs && num == TAU * hz_c && den == srs) by (nonlinear_arith)
                requires
                    num == (TAU as int) * (hz_c as int),
                    den == (sample_rate as int) * (SCALE as int),
                    srs == sample_rate * (SCALE as int),
                    40 <= sample_rate,
                    0 <= hz_c,
            ;
            assert(TAU * hz_c <= srs * PI_FX) by (nonlinear_arith)
                requires
                    0 <= hz_c,
                    2 * hz_c <= srs,
                    srs > 0,
                    TAU == 2 * PI_FX,
                    PI_FX > 0,
            ;
            lemma_div_pos_is_pos(num as int, den as int);
            lemma_multiply_divide_le(num as int, den as int, PI_FX as int);
        }
        self.frequency = omega as i64;
        self.lowpass_amp = get_lowpass_amp(hz_c);
    }

    /// Set the angular frequency directly, in Q32.32 radians per
    /// sample.
    pub fn set_frequency(&mut self, frequency: i64)
        requires
            old(self).wf(),
            0 <= frequency <= TAU,
        ensures
            *final(self) == (SinOsc { frequency, ..*old(self) }),
            final(self).wf(),
    {
        self.frequency = frequency;
    }

    pub fn set_amplitude(&mut self, amplitude: i64)
        requires
            old(self).wf(),
            -SAT <= amplitude <= SAT,
        ensures
            *final(self) == (SinOsc { amplitude, ..*old(self) }),
            final(self).wf(),
    {
        self.amplitude = amplitude;
    }

    /// Produce the sample for the current phase, then advance the phase
    /// by the angular frequency. Each call emits exactly one sample.
    pub fn next(&mut self) -> (r: i64)
        requires
            old(self).wf(),
        ensures
            r == Self::out_value(*old(self)),
            *final(self) == Self::stepped(*old(self)),
            final(self).wf(),
            -SAT <= r <= SAT,
    {
        let s: i64 = sin_fx(self.phase);
        let a: i64 = mul_fx(s, self.amplitude);
        let out: i64 = mul_fx(a, self.lowpass_amp);
        let p: i64 = self.phase + self.frequency;
        self.phase = if p >= TAU {
            p - TAU
        } else {
            p
        };
        out
    }

    /// The sample for the current phase, without the anti-aliasing gain
    /// and without advancing the phase.
    pub fn current_value(&self) -> (r: i64)
        requires
            self.wf(),
        ensures
            r == q_mul_sat(sin_spec(self.phase as int), self.amplitude as int),
    {
        let s: i64 = sin_fx(self.phase);
        mul_fx(s, self.amplitude)
    }
}

} // verus!
