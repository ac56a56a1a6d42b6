//! One resynthesis voice: 20 oscillator/smoother units, a sample rate
//! and an optional assigned MIDI note.
//!
//! A voice renders its 20 partials additively into an output block,
//! pitch-shifted by the assigned note; a voice with no note renders at
//! amplitude zero, so its oscillators ramp to silence instead of
//! stopping abruptly.

use vstd::prelude::*;

use crate::fixed::{clip, clip_i64, mul_fx, q_mul_sat, SAT, SCALE};
use crate::osc::{clamped_hz, lowpass_spec, omega_spec, SinOsc};
use crate::peak::{peaks_wf, Peak, MAX_PEAKS};
use crate::rng::random_u64;
use crate::smooth::SmoothedValue;
use crate::trig::{exp2_fx, exp2_spec};

verus! {

/// A MIDI note assignment.
#[derive(Clone, Copy, Debug, PartialEq, Eq, Structural)]
pub struct Note {
    pub note_number: u8,
}

/// The note gain while a note is held: 0.25 in Q32.32.
pub const NOTE_GAIN: i64 = 1073741824;

/// The MIDI note number at the pitch center: rendering at this note
/// plays the tracked partials unshifted.
pub const MIDDLE_C: u8 = 60;

/// The five ramps that drive one oscillator.
#[derive(Clone, Copy, Debug)]
pub struct Smoothers {
    pub freq: SmoothedValue,
    pub amp: SmoothedValue,
    pub transpose: SmoothedValue,
    pub random: SmoothedValue,
    pub detune: SmoothedValue,
}

/// One partial: a sine oscillator and its control ramps.
#[derive(Clone, Copy, Debug)]
pub struct Oscillator {
    pub osc: SinOsc,
    pub smoothers: Smoothers,
}

impl Smoothers {
    pub open spec fn wf(self) -> bool {
        &&& self.freq.wf()
        &&& self.amp.wf()
        &&& self.transpose.wf()
        &&& self.random.wf()
        &&& self.detune.wf()
    }
}

impl Oscillator {
    pub open spec fn wf(self) -> bool {
        &&& self.osc.wf()
        &&& self.smoothers.wf()
    }
}

/// The chorus detune factor for one sample: `2^(r * 2 * d)`, the
/// exponent clamped into `[-3, 3]`, the factor clamped into
/// `[0.25, 4]`.
pub open spec fn rand_amount_spec(r: int, d: int) -> int {
    let e: int = q_mul_sat(q_mul_sat(r, 2 * SCALE), d);
    let ec: int = clip(e, -3 * (SCALE as int), 3 * (SCALE as int));
    clip(exp2_spec(ec), (SCALE as int) / 4, 4 * (SCALE as int))
}

/// One sample of one oscillator unit: advance the five ramps, set the
/// oscillator's frequency (in Hz, from the ramped frequency, the
/// transpose factor, the detune factor and the note's pitch multiplier)
/// and amplitude, then emit one sample.
pub open spec fn unit_step(u: Oscillator, pitch_mult: int, note_amp: int, sample_rate: int) -> (
    Oscillator,
    int,
) {
    let sm = u.smoothers;
    let rv: int = SmoothedValue::next_value(sm.random);
    let dv: int = SmoothedValue::next_value(sm.detune);
    let fv: int = SmoothedValue::next_value(sm.freq);
    let tv: int = SmoothedValue::next_value(sm.transpose);
    let av: int = SmoothedValue::next_value(sm.amp);
    let ra: int = rand_amount_spec(rv, dv);
    let hz: int = q_mul_sat(q_mul_sat(q_mul_sat(fv, tv), ra), pitch_mult);
    let o1: SinOsc = SinOsc {
        frequency: omega_spec(hz, sample_rate) as i64,
        lowpass_amp: lowpass_spec(clamped_hz(hz, sample_rate)) as i64,
        amplitude: q_mul_sat(av, note_amp) as i64,
        phase: u.osc.phase,
    };
    let next_unit = Oscillator {
        osc: SinOsc::stepped(o1),
        smoothers: Smoothers {
            freq: SmoothedValue::stepped(sm.freq),
            amp: SmoothedValue::stepped(sm.amp),
            transpose: SmoothedValue::stepped(sm.transpose),
            random: SmoothedValue::stepped(sm.random),
            detune: SmoothedValue::stepped(sm.detune),
        },
    };
    (next_unit, SinOsc::out_value(o1))
}

/// The unit state after `t` samples.
pub open spec fn unit_at(
    u: Oscillator,
    pitch_mult: int,
    note_amp: int,
    sample_rate: int,
    t: nat,
) -> Oscillator
    decreases t,
{
    if t == 0 {
        u
    } else {
        unit_step(unit_at(u, pitch_mult, note_amp, sample_rate, (t - 1) as nat), pitch_mult, note_amp, sample_rate).0
    }
}

/// The sample a unit contributes at step `t`.
pub open spec fn unit_out_at(
    u: Oscillator,
    pitch_mult: int,
    note_amp: int,
    sample_rate: int,
    t: nat,
) -> int {
    unit_step(unit_at(u, pitch_mult, note_amp, sample_rate, t), pitch_mult, note_amp, sample_rate).1
}

/// One step preserves well-formedness and emits a bounded sample.
pub proof fn lemma_unit_step_wf(u: Oscillator, pitch_mult: int, note_amp: int, sample_rate: int)
    requires
        u.wf(),
        40 <= sample_rate <= 10000000,
        -SAT <= note_amp <= SAT,
    ensures
        unit_step(u, pitch_mult, note_amp, sample_rate).0.wf(),
        -SAT <= unit_step(u, pitch_mult, note_amp, sample_rate).1 <= SAT,
{
    let sm = u.smoothers;
    SmoothedValue::lemma_next_value_bounds(sm.random);
    SmoothedValue::lemma_next_value_bounds(sm.detune);
    SmoothedValue::lemma_next_value_bounds(sm.freq);
    SmoothedValue::lemma_next_value_bounds(sm.transpose);
    SmoothedValue::lemma_next_value_bounds(sm.amp);
    let av: int = SmoothedValue::next_value(sm.amp);
    let hz: int = q_mul_sat(
        q_mul_sat(
            q_mul_sat(SmoothedValue::next_value(sm.freq), SmoothedValue::next_value(sm.transpose)),
            rand_amount_spec(SmoothedValue::next_value(sm.random), SmoothedValue::next_value(sm.detune)),
        ),
        pitch_mult,
    );
    crate::osc::lemma_omega_bounds(hz, sample_rate);
}

/// The unit state after any number of steps stays well-formed.
pub proof fn lemma_unit_at_wf(
    u: Oscillator,
    pitch_mult: int,
    note_amp: int,
    sample_rate: int,
    t: nat,
)
    requires
        u.wf(),
        40 <= sample_rate <= 10000000,
        -SAT <= note_amp <= SAT,
    ensures
        unit_at(u, pitch_mult, note_amp, sample_rate, t).wf(),
        -SAT <= unit_out_at(u, pitch_mult, note_amp, sample_rate, t) <= SAT,
    decreases t,
{
    if t > 0 {
        lemma_unit_at_wf(u, pitch_mult, note_amp, sample_rate, (t - 1) as nat);
        lemma_unit_step_wf(
            unit_at(u, pitch_mult, note_amp, sample_rate, (t - 1) as nat),
            pitch_mult,
            note_amp,
            sample_rate,
        );
    }
    lemma_unit_step_wf(unit_at(u, pitch_mult, note_amp, sample_rate, t), pitch_mult, note_amp, sample_rate);
}

/// Computes [`unit_step`] in place.
fn step_oscillator(unit: &mut Oscillator, pitch_mult: i64, note_amp: i64, sample_rate: u32) -> (out:
    i64)
    requires
        old(unit).wf(),
        40 <= sample_rate <= 10000000,
        -SAT <= pitch_mult <= SAT,
        -SAT <= note_amp <= SAT,
    ensures
        *final(unit) == unit_step(
            *old(unit),
            pitch_mult as int,
            note_amp as int,
            sample_rate as int,
        ).0,
        out == unit_step(*old(unit), pitch_mult as int, note_amp as int, sample_rate as int).1,
        final(unit).wf(),
        -SAT <= out <= SAT,
{
    proof {
        lemma_unit_step_wf(
            *old(unit),
            pitch_mult as int,
            note_amp as int,
            sample_rate as int,
        );
    }
    let rv: i64 = unit.smoothers.random.next();
    let dv: i64 = unit.smoothers.detune.next();
    let fv: i64 = unit.smoothers.freq.next();
    let tv: i64 = unit.smoothers.transpose.next();
    let e: i64 = mul_fx(mul_fx(rv, 2 * SCALE), dv);
    let ec: i64 = clip_i64(e, -3 * SCALE, 3 * SCALE);
    let ra: i64 = clip_i64(exp2_fx(ec), SCALE / 4, 4 * SCALE);
    let hz: i64 = mul_fx(mul_fx(mul_fx(fv, tv), ra), pitch_mult);
    unit.osc.set_frequency_hz(hz, sample_rate);
    let av: i64 = unit.smoothers.amp.next();
    unit.osc.set_amplitude(mul_fx(av, note_amp));
    unit.osc.next()
}

/// The ghost model of a voice: its note, sample rate and unit states.
pub struct VoiceModel {
    pub note: Option<Note>,
    pub sample_rate: int,
    pub units: Seq<Oscillator>,
}

impl VoiceModel {
    pub open spec fn wf(self) -> bool {
        &&& 40 <= self.sample_rate <= 10000000
        &&& self.units.len() == MAX_PEAKS
        &&& forall|i: int| 0 <= i < self.units.len() ==> (#[trigger] self.units[i]).wf()
    }
}

/// The pitch multiplier a note imposes: `2^((note - 60) / 12)`, or one
/// with no note assigned.
pub open spec fn pitch_mult_of(m: VoiceModel) -> int {
    match m.note {
        Some(n) => exp2_spec(
            clip(
                crate::fixed::div_trunc((n.note_number - MIDDLE_C) * (SCALE as int), 12),
                -8 * (SCALE as int),
                8 * (SCALE as int),
            ),
        ),
        None => SCALE as int,
    }
}

/// The note gain: 0.25 while a note is held, else zero.
pub open spec fn note_amp_of(m: VoiceModel) -> int {
    match m.note {
        Some(n) => NOTE_GAIN as int,
        None => 0,
    }
}

/// The model after rendering `steps` samples: every unit advances.
pub open spec fn model_rendered(m: VoiceModel, steps: nat) -> VoiceModel {
    VoiceModel {
        units: Seq::new(
            m.units.len(),
            |i: int| unit_at(m.units[i], pitch_mult_of(m), note_amp_of(m), m.sample_rate, steps),
        ),
        ..m
    }
}

/// The running sum of the first `n` units' contributions at step `t`,
/// each addition clipped into `[-1, 1]`.
pub open spec fn rendered_sample(m: VoiceModel, n: int, t: nat, init: i64) -> int
    decreases n,
{
    if n <= 0 {
        init as int
    } else {
        clip(
            rendered_sample(m, n - 1, t, init) + unit_out_at(
                m.units[n - 1],
                pitch_mult_of(m),
                note_amp_of(m),
                m.sample_rate,
                t,
            ),
            -(SCALE as int),
            SCALE as int,
        )
    }
}

/// The block after one voice rendered into `[start, end)`.
pub open spec fn model_block_out(m: VoiceModel, block: Seq<i64>, start: int, end: int) -> Seq<
    i64,
> {
    Seq::new(
        block.len(),
        |t: int|
            if start <= t < end {
                rendered_sample(m, MAX_PEAKS as int, (t - start) as nat, block[t]) as i64
            } else {
                block[t]
            },
    )
}

/// One unit after the targets of one prepare pass: transpose and detune
/// always retarget; unless frozen, frequency and amplitude retarget
/// from the slot's tracked peak, amplitude toward zero for an empty
/// slot.
pub open spec fn prepared_unit(
    u: Oscillator,
    peak: Option<Peak>,
    freeze: bool,
    transpose: i64,
    detune: i64,
) -> Oscillator {
    let sm = u.smoothers;
    let freq2: SmoothedValue = if !freeze && peak is Some {
        SmoothedValue::retargeted(sm.freq, peak.unwrap().frequency)
    } else {
        sm.freq
    };
    let amp2: SmoothedValue = if !freeze {
        if peak is Some {
            SmoothedValue::retargeted(sm.amp, peak.unwrap().amplitude)
        } else {
            SmoothedValue::retargeted(sm.amp, 0)
        }
    } else {
        sm.amp
    };
    Oscillator {
        osc: u.osc,
        smoothers: Smoothers {
            freq: freq2,
            amp: amp2,
            transpose: SmoothedValue::retargeted(sm.transpose, transpose),
            random: sm.random,
            detune: SmoothedValue::retargeted(sm.detune, detune),
        },
    }
}

/// The model after one prepare pass over the whole peak table.
pub open spec fn prepared_model(
    m: VoiceModel,
    peaks: Seq<Option<Peak>>,
    freeze: bool,
    transpose: i64,
    detune: i64,
) -> VoiceModel {
    VoiceModel {
        units: Seq::new(
            m.units.len(),
            |i: int| prepared_unit(m.units[i], peaks[i], freeze, transpose, detune),
        ),
        ..m
    }
}

pub struct Voice {
    pub sample_rate: u32,
    pub note: Option<Note>,
    pub oscillators: Vec<Oscillator>,
}

impl Voice {
    pub open spec fn model(self) -> VoiceModel {
        VoiceModel {
            note: self.note,
            sample_rate: self.sample_rate as int,
            units: self.oscillators@,
        }
    }

    pub open spec fn wf(self) -> bool {
        self.model().wf()
    }

    /// A fresh voice: no note, amplitude ramps at zero, frequency ramps
    /// at 440 Hz, transpose at one; each unit draws one fixed random
    /// detune value in `[-1, 1]`.
    pub fn new(sample_rate: u32) -> (r: Self)
        requires
            40 <= sample_rate <= 10000000,
        ensures
            r.sample_rate == sample_rate,
            r.note is None,
            r.wf(),
            forall|i: int|
                0 <= i < MAX_PEAKS ==> {
                    let u = #[trigger] r.oscillators@[i];
                    &&& u.osc == (SinOsc {
                        frequency: 0i64,
                        amplitude: 0i64,
                        phase: 0i64,
                        lowpass_amp: SCALE,
                    })
                    &&& u.smoothers.freq == SmoothedValue::fresh((440 * SCALE) as i64, 64)
                    &&& u.smoothers.amp == SmoothedValue::fresh(0, 64)
                    &&& u.smoothers.transpose == SmoothedValue::fresh(SCALE, 64)
                    &&& u.smoothers.detune == SmoothedValue::fresh(0, 64)
                    &&& -SCALE <= u.smoothers.random.value <= SCALE
                    &&& u.smoothers.random.target == u.smoothers.random.value
                    &&& u.smoothers.random.remaining_steps_to_target == 0
                    &&& u.smoothers.random.smooth_length == 64
                },
    {
        let mut oscillators: Vec<Oscillator> = Vec::new();
        let mut i: usize = 0;
        while i < MAX_PEAKS
            invariant
                i <= MAX_PEAKS,
                oscillators.len() == i,
                forall|u2: int|
                    0 <= u2 < i ==> {
                        let u = #[trigger] oscillators@[u2];
                        &&& u.osc == (SinOsc {
                            frequency: 0i64,
                            amplitude: 0i64,
                            phase: 0i64,
                            lowpass_amp: SCALE,
                        })
                        &&& u.smoothers.freq == SmoothedValue::fresh((440 * SCALE) as i64, 64)
                        &&& u.smoothers.amp == SmoothedValue::fresh(0, 64)
                        &&& u.smoothers.transpose == SmoothedValue::fresh(SCALE, 64)
                        &&& u.smoothers.detune == SmoothedValue::fresh(0, 64)
                        &&& -SCALE <= u.smoothers.random.value <= SCALE
                        &&& u.smoothers.random.target == u.smoothers.random.value
                        &&& u.smoothers.random.remaining_steps_to_target == 0
                        &&& u.smoothers.random.smooth_length == 64
                        &&& u.wf()
                    },
            decreases MAX_PEAKS - i,
        {
            let noise: u64 = random_u64();
            let spread: i64 = (noise % 8589934593u64) as i64 - SCALE;
            let unit = Oscillator {
                osc: SinOsc::new(0, 0, 0),
                smoothers: Smoothers {
                    freq: SmoothedValue::new(440 * SCALE, 64),
                    amp: SmoothedValue::new(0, 64),
                    transpose: SmoothedValue::new(SCALE, 64),
                    random: SmoothedValue::new(spread, 64),
                    detune: SmoothedValue::new(0, 64),
                },
            };
            oscillators.push(unit);
            i = i + 1;
        }
        Self { sample_rate, note: None, oscillators }
    }

    pub fn get_note(&self) -> (r: &Option<Note>)
        ensures
            r == self.note,
    {
        &self.note
    }

    pub fn set_note(&mut self, note: Option<Note>)
        ensures
            *final(self) == (Voice { note, ..*old(self) }),
    {
        self.note = note;
    }

    pub fn note_on(&mut self, note_number: u8, _velocity: u8)
        ensures
            *final(self) == (Voice { note: Some(Note { note_number }), ..*old(self) }),
    {
        self.set_note(Some(Note { note_number }));
    }

    pub fn note_off(&mut self)
        ensures
            *final(self) == (Voice { note: None, ..*old(self) }),
    {
        self.set_note(None);
    }

    /// A voice with no assigned note is free.
    pub fn is_free(&self) -> (r: bool)
        ensures
            r == (self.note is None),
    {
        self.note.is_none()
    }

    /// Whether this voice currently holds the given note number.
    pub fn matches_note(&self, note_number: u8) -> (r: bool)
        ensures
            r == (self.note matches Some(n) && n.note_number == note_number),
    {
        if let Some(note) = &self.note {
            note.note_number == note_number
        } else {
            false
        }
    }

    /// Update every unit's ramp targets from the tracked peak table, as
    /// described by [`prepared_model`].
    pub fn prepare_oscillators(
        &mut self,
        peaks: &[Option<Peak>],
        freeze: bool,
        transpose: i64,
        detune: i64,
    )
        requires
            old(self).wf(),
            peaks.len() == MAX_PEAKS,
            peaks_wf(peaks@),
            -SAT <= transpose <= SAT,
            -SAT <= detune <= SAT,
        ensures
            final(self).model() == prepared_model(
                old(self).model(),
                peaks@,
                freeze,
                transpose,
                detune,
            ),
            final(self).wf(),
            final(self).note == old(self).note,
            final(self).sample_rate == old(self).sample_rate,
    {
        let mut i: usize = 0;
        while i < MAX_PEAKS
            invariant
                i <= MAX_PEAKS,
                self.sample_rate == old(self).sample_rate,
                self.note == old(self).note,
                old(self).wf(),
                self.oscillators.len() == MAX_PEAKS,
                peaks.len() == MAX_PEAKS,
                peaks_wf(peaks@),
                -SAT <= transpose <= SAT,
                -SAT <= detune <= SAT,
                forall|u: int|
                    0 <= u < i ==> #[trigger] self.oscillators@[u] == prepared_unit(
                        old(self).oscillators@[u],
                        peaks@[u],
                        freeze,
                        transpose,
                        detune,
                    ),
                forall|u: int|
                    i <= u < MAX_PEAKS ==> #[trigger] self.oscillators@[u] == old(
                        self,
                    ).oscillators@[u],
            decreases MAX_PEAKS - i,
        {
            let mut unit: Oscillator = self.oscillators[i];
            unit.smoothers.transpose.set_target(transpose);
            unit.smoothers.detune.set_target(detune);
            if !freeze {
                match peaks[i] {
                    Some(peak) => {
                        unit.smoothers.freq.set_target(peak.frequency);
                        unit.smoothers.amp.set_target(peak.amplitude);
                    },
                    None => {
                        unit.smoothers.amp.set_target(0);
                    },
                }
            }
            self.oscillators.set(i, unit);
            i = i + 1;
        }
        proof {
            assert(self.model().units =~= prepared_model(
                old(self).model(),
                peaks@,
                freeze,
                transpose,
                detune,
            ).units);
            assert(self.model() == prepared_model(
                old(self).model(),
                peaks@,
                freeze,
                transpose,
                detune,
            ));
        }
    }

    /// Render this voice additively into `block[start..end)`, as
    /// described by [`model_block_out`]; every unit advances by
    /// `end - start` samples.
    pub fn render_range(&mut self, block: &mut Vec<i64>, start: usize, end: usize)
        requires
            old(self).wf(),
            start <= end <= old(block).len(),
            old(block).len() <= 1000000000,
            forall|t: int| 0 <= t < old(block).len() ==> -SCALE <= #[trigger] old(block)@[t] <= SCALE,
        ensures
            final(self).model() == model_rendered(old(self).model(), (end - start) as nat),
            final(self).wf(),
            final(self).note == old(self).note,
            final(self).sample_rate == old(self).sample_rate,
            final(block)@ == model_block_out(old(self).model(), old(block)@, start as int, end as int),
            final(block).len() == old(block).len(),
            forall|t: int| 0 <= t < final(block).len() ==> -SCALE <= #[trigger] final(block)@[t] <= SCALE,
    {
        let ghost m0: VoiceModel = old(self).model();
        let steps: usize = end - start;
        let pitch_mult: i64 = match &self.note {
            Some(n) => {
                let off: i64 = ((n.note_number as i64) - (MIDDLE_C as i64)) * SCALE / 12;
                exp2_fx(clip_i64(off, -8 * SCALE, 8 * SCALE))
            },
            None => SCALE,
        };
        let note_amp: i64 = match &self.note {
            Some(n) => NOTE_GAIN,
            None => 0,
        };
        proof {
            assert(pitch_mult == pitch_mult_of(m0));
            assert(note_amp == note_amp_of(m0));
        }
        let sample_rate: u32 = self.sample_rate;
        let mut i: usize = 0;
        while i < MAX_PEAKS
            invariant
                i <= MAX_PEAKS,
                m0 == old(self).model(),
                m0.wf(),
                self.sample_rate == old(self).sample_rate,
                self.note == old(self).note,
                sample_rate == self.sample_rate,
                self.oscillators.len() == MAX_PEAKS,
                start <= end <= block.len(),
                block.len() == old(block).len() <= 1000000000,
                steps == end - start,
                -SAT <= pitch_mult <= SAT,
                pitch_mult == pitch_mult_of(m0),
                -SAT <= note_amp <= SAT,
                note_amp == note_amp_of(m0),
                forall|u: int|
                    0 <= u < i ==> #[trigger] self.oscillators@[u] == unit_at(
                        m0.units[u],
                        pitch_mult as int,
                        note_amp as int,
                        m0.sample_rate,
                        steps as nat,
                    ),
                forall|u: int|
                    i <= u < MAX_PEAKS ==> #[trigger] self.oscillators@[u] == m0.units[u],
                forall|t: int|
                    start <= t < end ==> #[trigger] block@[t] == rendered_sample(
                        m0,
                        i as int,
                        (t - start) as nat,
                        old(block)@[t],
                    ),
                forall|t: int|
                    (0 <= t < start || end <= t < block.len()) ==> #[trigger] block@[t] == old(
                        block,
                    )@[t],
                forall|t: int| 0 <= t < block.len() ==> -SCALE <= #[trigger] block@[t] <= SCALE,
            decreases MAX_PEAKS - i,
        {
            let mut unit: Oscillator = self.oscillators[i];
            let mut t: usize = 0;
            while t < steps
                invariant
                    t <= steps,
                    i < MAX_PEAKS,
                    m0.wf(),
                    start <= end <= block.len(),
                    block.len() == old(block).len() <= 1000000000,
                    steps == end - start,
                    -SAT <= pitch_mult <= SAT,
                    pitch_mult == pitch_mult_of(m0),
                    -SAT <= note_amp <= SAT,
                    note_amp == note_amp_of(m0),
                    40 <= sample_rate <= 10000000,
                    sample_rate == m0.sample_rate,
                    unit == unit_at(
                        m0.units[i as int],
                        pitch_mult as int,
                        note_amp as int,
                        m0.sample_rate,
                        t as nat,
                    ),
                    unit.wf(),
                    forall|t2: int|
                        start <= t2 < start + t ==> #[trigger] block@[t2] == rendered_sample(
                            m0,
                            i + 1,
                            (t2 - start) as nat,
                            old(block)@[t2],
                        ),
                    forall|t2: int|
                        start + t <= t2 < end ==> #[trigger] block@[t2] == rendered_sample(
                            m0,
                            i as int,
                            (t2 - start) as nat,
                            old(block)@[t2],
                        ),
                    forall|t2: int|
                        (0 <= t2 < start || end <= t2 < block.len()) ==> #[trigger] block@[t2]
                            == old(block)@[t2],
                    forall|t2: int| 0 <= t2 < block.len() ==> -SCALE <= #[trigger] block@[t2] <= SCALE,
                decreases steps - t,
            {
                let out: i64 = step_oscillator(&mut unit, pitch_mult, note_amp, sample_rate);
                let pos: usize = start + t;
                let prev: i64 = block[pos];
                let updated: i64 = clip_i64(prev + out, -SCALE, SCALE);
                block.set(pos, updated);
                t = t + 1;
            }
            proof {
                lemma_unit_at_wf(
                    m0.units[i as int],
                    pitch_mult as int,
                    note_amp as int,
                    m0.sample_rate,
                    steps as nat,
                );
            }
            self.oscillators.set(i, unit);
            i = i + 1;
        }
        proof {
            assert(self.model().units =~= model_rendered(m0, steps as nat).units);
            assert(self.model() == model_rendered(m0, steps as nat));
            assert(block@ =~= model_block_out(m0, old(block)@, start as int, end as int));
            assert forall|u: int| 0 <= u < MAX_PEAKS implies (#[trigger] self.oscillators@[u]).wf() by {
                lemma_unit_at_wf(
                    m0.units[u],
                    pitch_mult as int,
                    note_amp as int,
                    m0.sample_rate,
                    steps as nat,
                );
            };
        }
    }

    /// Render this voice additively into the whole block.
    pub fn render_block(&mut self, block: &mut Vec<i64>)
        requires
            old(self).wf(),
            old(block).len() <= 1000000000,
            forall|t: int| 0 <= t < old(block).len() ==> -SCALE <= #[trigger] old(block)@[t] <= SCALE,
        ensures
            final(self).model() == model_rendered(old(self).model(), old(block).len() as nat),
            final(self).wf(),
            final(self).note == old(self).note,
            final(self).sample_rate == old(self).sample_rate,
            final(block)@ == model_block_out(old(self).model(), old(block)@, 0, old(block).len() as int),
            final(block).len() == old(block).len(),
            forall|t: int| 0 <= t < final(block).len() ==> -SCALE <= #[trigger] final(block)@[t] <= SCALE,
    {
        let len: usize = block.len();
        self.render_range(block, 0, len);
    }
}

} // verus!
