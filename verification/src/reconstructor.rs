//! The top-level engine: ring buffer, analyzer, tracker and the
//! resynthesis voices, driven once per audio block.
//!
//! Per block, the host writes its input samples into the ring buffer,
//! asks for the current 1024-sample analysis frame (the latest 512
//! samples Hann-windowed and zero-padded), computes the forward real
//! FFT, and hands the 513 bin magnitudes to [`Reconstructor::run`],
//! which extracts and tracks the peaks and renders the active voices.

use vstd::prelude::*;

use crate::analyzer::{analyzed_peaks, PeakAnalyzer, NUM_BINS};
use crate::buffer::{ring_read, ring_write_seq, BufferReader, Ringbuffer};
use crate::fixed::{clip, clip_i64, q_mul_sat, SAT, SCALE};
use crate::peak::{peaks_wf, Peak, MAX_PEAKS};
use crate::synth::{models_of, synth_run, Event, Synth};
use crate::tracker::{tracker_updated, PeakTracker};
use crate::trig::{exp2_fx, exp2_spec};
use crate::voice::{
    model_block_out, model_rendered, prepared_model, Note, Voice, VoiceModel, MIDDLE_C,
};
use crate::window::{apply_hanning_window, hann_coeff};

verus! {

/// The analysis window length in samples.
pub const WINDOW_SIZE: usize = 512;

/// The number of voices in the polyphonic pool.
pub const NUM_VOICES: usize = 8;

/// Every voice model of a pool after one prepare pass.
pub open spec fn prepared_models(
    ms: Seq<VoiceModel>,
    peaks: Seq<Option<Peak>>,
    freeze: bool,
    transpose: i64,
    detune: i64,
) -> Seq<VoiceModel> {
    Seq::new(ms.len(), |i: int| prepared_model(ms[i], peaks, freeze, transpose, detune))
}

pub struct Reconstructor {
    pub peak_analyzer: PeakAnalyzer,
    pub peak_tracker: PeakTracker,
    pub buffer: Ringbuffer,
    pub sample_rate: u32,
    pub freeze: bool,
    /// The pitch factor applied to every tracked partial: `2^octaves`,
    /// Q32.32.
    pub transpose: i64,
    /// The chorus detune depth in `[0, 1]`, Q32.32.
    pub detune: i64,
    /// The always-on voice used outside synth mode, bound permanently
    /// to the center note.
    pub default_voice: Voice,
    pub synth_mode: bool,
    pub synth: Synth,
}

impl Reconstructor {
    pub open spec fn wf(self) -> bool {
        &&& self.peak_analyzer.wf()
        &&& self.peak_analyzer.sample_rate == self.sample_rate
        &&& self.peak_tracker.wf()
        &&& self.buffer.wf()
        &&& self.buffer.data.len() == WINDOW_SIZE
        &&& 40 <= self.sample_rate <= 10000000
        &&& -SAT <= self.transpose <= SAT
        &&& -SAT <= self.detune <= SAT
        &&& self.default_voice.wf()
        &&& self.synth.wf()
        &&& self.synth.voices.len() == NUM_VOICES
    }

    /// A fresh engine at the given sample rate: empty peak table, zeroed
    /// ring buffer, eight free voices, and the default voice holding the
    /// center note.
    pub fn new(sample_rate: u32) -> (r: Self)
        requires
            40 <= sample_rate <= 10000000,
        ensures
            r.wf(),
            r.sample_rate == sample_rate,
            r.freeze == false,
            r.synth_mode == false,
            r.transpose == SCALE,
            r.detune == 0i64,
            r.peak_tracker.peaks@ == crate::tracker::repeated(None::<Peak>, MAX_PEAKS as nat),
            r.buffer.data@ == crate::buffer::zero_seq(WINDOW_SIZE as nat),
            r.buffer.index == 0,
            r.default_voice.note == Some(Note { note_number: MIDDLE_C }),
            forall|i: int|
                0 <= i < NUM_VOICES ==> (#[trigger] r.synth.voices@[i]).note is None,
    {
        let peak_analyzer = PeakAnalyzer::new(sample_rate);
        let peak_tracker = PeakTracker::new();
        let buffer = Ringbuffer::new(WINDOW_SIZE);
        let mut voices: Vec<Voice> = Vec::new();
        let mut i: usize = 0;
        while i < NUM_VOICES
            invariant
                i <= NUM_VOICES,
                voices.len() == i,
                40 <= sample_rate <= 10000000,
                forall|u: int| 0 <= u < i ==> (#[trigger] voices@[u]).wf(),
                forall|u: int| 0 <= u < i ==> (#[trigger] voices@[u]).note is None,
            decreases NUM_VOICES - i,
        {
            voices.push(Voice::new(sample_rate));
            i = i + 1;
        }
        let synth = Synth { voices };
        let mut default_voice = Voice::new(sample_rate);
        default_voice.set_note(Some(Note { note_number: MIDDLE_C }));
        Self {
            peak_analyzer,
            peak_tracker,
            buffer,
            sample_rate,
            freeze: false,
            transpose: SCALE,
            detune: 0,
            default_voice,
            synth_mode: false,
            synth,
        }
    }

    pub fn set_freeze(&mut self, status: bool)
        ensures
            *final(self) == (Reconstructor { freeze: status, ..*old(self) }),
    {
        self.freeze = status;
    }

    /// Set the transpose amount in octaves, clamped into `[-2, 2]` and
    /// mapped to the pitch factor `2^amount`.
    pub fn set_transpose(&mut self, amount: i64)
        requires
            old(self).wf(),
        ensures
            *final(self) == (Reconstructor {
                transpose: exp2_spec(clip(amount as int, -2 * (SCALE as int), 2 * (SCALE as int)))
                    as i64,
                ..*old(self)
            }),
            final(self).wf(),
    {
        let clamped: i64 = clip_i64(amount, -2 * SCALE, 2 * SCALE);
        self.transpose = exp2_fx(clamped);
    }

    /// Set the detune depth, clamped into `[0, 1]`.
    pub fn set_detune(&mut self, amount: i64)
        requires
            old(self).wf(),
        ensures
            *final(self) == (Reconstructor {
                detune: clip(amount as int, 0, SCALE as int) as i64,
                ..*old(self)
            }),
            final(self).wf(),
    {
        self.detune = clip_i64(amount, 0, SCALE);
    }

    pub fn set_synth_mode(&mut self, is_active: bool)
        ensures
            *final(self) == (Reconstructor { synth_mode: is_active, ..*old(self) }),
    {
        self.synth_mode = is_active;
    }

    /// Feed one block of input samples into the ring buffer, oldest
    /// samples overwritten once the buffer wraps.
    pub fn write_input(&mut self, input: &[i64])
        requires
            old(self).wf(),
            forall|i: int| 0 <= i < input.len() ==> -SAT <= #[trigger] input@[i] <= SAT,
        ensures
            (final(self).buffer.data@, final(self).buffer.index as int) == ring_write_seq(
                old(self).buffer.data@,
                old(self).buffer.index as int,
                input@,
            ),
            *final(self) == (Reconstructor { buffer: final(self).buffer, ..*old(self) }),
            final(self).wf(),
    {
        let mut i: usize = 0;
        proof {
            assert(input@.subrange(0, 0) =~= Seq::<i64>::empty());
        }
        while i < input.len()
            invariant
                i <= input.len(),
                forall|k: int| 0 <= k < input.len() ==> -SAT <= #[trigger] input@[k] <= SAT,
                (self.buffer.data@, self.buffer.index as int) == ring_write_seq(
                    old(self).buffer.data@,
                    old(self).buffer.index as int,
                    input@.subrange(0, i as int),
                ),
                self.buffer.wf(),
                self.buffer.data.len() == old(self).buffer.data.len(),
                *self == (Reconstructor { buffer: self.buffer, ..*old(self) }),
            decreases input.len() - i,
        {
            self.buffer.write(input[i]);
            proof {
                assert(input@.subrange(0, (i + 1) as int).drop_last() =~= input@.subrange(
                    0,
                    i as int,
                ));
            }
            i = i + 1;
        }
        proof {
            assert(input@.subrange(0, input@.len() as int) =~= input@);
        }
    }

    /// The current 1024-sample analysis frame: the latest 512 samples in
    /// oldest-to-newest order, Hann-windowed, zero-padded to the FFT
    /// length.
    pub fn analysis_window(&self) -> (r: Vec<i64>)
        requires
            self.wf(),
        ensures
            r.len() == 2 * WINDOW_SIZE,
            forall|i: int|
                0 <= i < WINDOW_SIZE ==> #[trigger] r@[i] == q_mul_sat(
                    ring_read(self.buffer.data@, self.buffer.index as int)[i] as int,
                    hann_coeff(i, WINDOW_SIZE as int),
                ),
            forall|i: int| WINDOW_SIZE <= i < 2 * WINDOW_SIZE ==> #[trigger] r@[i] == 0i64,
            forall|i: int| 0 <= i < r.len() ==> -SAT <= #[trigger] r@[i] <= SAT,
    {
        let mut reader: BufferReader<'_> = self.buffer.get_reader();
        let mut window: Vec<i64> = Vec::new();
        let mut i: usize = 0;
        while i < WINDOW_SIZE
            invariant
                i <= WINDOW_SIZE,
                self.wf(),
                reader.data@ == self.buffer.data@,
                reader.starting_index == self.buffer.index,
                reader.index == i,
                reader.wf(),
                window.len() == i,
                forall|k: int|
                    0 <= k < i ==> #[trigger] window@[k] == ring_read(
                        self.buffer.data@,
                        self.buffer.index as int,
                    )[k],
            decreases WINDOW_SIZE - i,
        {
            let sample: i64 = match reader.next() {
                Some(v) => v,
                None => {
                    proof {
                        assert(false);
                    }
                    0
                },
            };
            window.push(sample);
            i = i + 1;
        }
        proof {
            assert forall|k: int| 0 <= k < WINDOW_SIZE implies -SAT <= #[trigger] window@[k]
                <= SAT by {
                assert(window@[k] == ring_read(self.buffer.data@, self.buffer.index as int)[k]);
            };
        }
        let mut out: Vec<i64> = apply_hanning_window(window.as_slice());
        let mut j: usize = 0;
        while j < WINDOW_SIZE
            invariant
                j <= WINDOW_SIZE,
                out.len() == WINDOW_SIZE + j,
                forall|k: int|
                    0 <= k < WINDOW_SIZE ==> #[trigger] out@[k] == q_mul_sat(
                        ring_read(self.buffer.data@, self.buffer.index as int)[k] as int,
                        hann_coeff(k, WINDOW_SIZE as int),
                    ),
                forall|k: int| WINDOW_SIZE <= k < out.len() ==> #[trigger] out@[k] == 0i64,
                forall|k: int| 0 <= k < out.len() ==> -SAT <= #[trigger] out@[k] <= SAT,
            decreases WINDOW_SIZE - j,
        {
            out.push(0);
            j = j + 1;
        }
        out
    }

    /// One block of the analysis–tracking–resynthesis pipeline, fed the
    /// 513 bin magnitudes of the current analysis frame's FFT: extract
    /// the frame's peaks, reassign them onto the persistent table, feed
    /// the table into the active voices and render them into `output`.
    pub fn run(&mut self, mags: &[i64], output: &mut Vec<i64>, events: &[Event])
        requires
            old(self).wf(),
            mags.len() == NUM_BINS,
            forall|i: int| 0 <= i < mags.len() ==> 0 <= #[trigger] mags@[i] <= SAT,
            old(output).len() <= 1000000000,
            forall|t: int|
                0 <= t < old(output).len() ==> -SCALE <= #[trigger] old(output)@[t] <= SCALE,
            forall|i: int, j: int|
                0 <= i < j < events.len() ==> (#[trigger] events@[i]).offset <= (
                #[trigger] events@[j]).offset,
            forall|i: int|
                0 <= i < events.len() ==> (#[trigger] events@[i]).offset <= old(output).len(),
        ensures
            final(self).wf(),
            final(self).peak_tracker.peaks@ == tracker_updated(
                old(self).peak_tracker.peaks@,
                analyzed_peaks(mags@, old(self).sample_rate as int),
            ),
            final(self).buffer == old(self).buffer,
            final(self).sample_rate == old(self).sample_rate,
            final(self).freeze == old(self).freeze,
            final(self).transpose == old(self).transpose,
            final(self).detune == old(self).detune,
            final(self).synth_mode == old(self).synth_mode,
            final(output).len() == old(output).len(),
            forall|t: int|
                0 <= t < final(output).len() ==> -SCALE <= #[trigger] final(output)@[t] <= SCALE,
            !old(self).synth_mode ==> {
                let prepared = prepared_model(
                    old(self).default_voice.model(),
                    final(self).peak_tracker.peaks@,
                    old(self).freeze,
                    old(self).transpose,
                    old(self).detune,
                );
                &&& final(self).default_voice.model() == model_rendered(
                    prepared,
                    old(output).len() as nat,
                )
                &&& final(output)@ == model_block_out(
                    prepared,
                    old(output)@,
                    0,
                    old(output).len() as int,
                )
                &&& final(self).synth == old(self).synth
            },
            old(self).synth_mode ==> {
                let prepared = prepared_models(
                    models_of(old(self).synth.voices@),
                    final(self).peak_tracker.peaks@,
                    old(self).freeze,
                    old(self).transpose,
                    old(self).detune,
                );
                &&& (models_of(final(self).synth.voices@), final(output)@) == synth_run(
                    prepared,
                    old(output)@,
                    events@,
                    0,
                )
                &&& final(self).default_voice == old(self).default_voice
            },
    {
        let raw_peaks: Vec<Option<Peak>> = self.peak_analyzer.get_raw_peaks(mags);
        self.peak_tracker.update_peaks(raw_peaks.as_slice());
        let ghost new_table: Seq<Option<Peak>> = self.peak_tracker.peaks@;
        let mut peaks: Vec<Option<Peak>> = Vec::new();
        let mut i: usize = 0;
        while i < MAX_PEAKS
            invariant
                i <= MAX_PEAKS,
                self.peak_tracker.peaks.len() == MAX_PEAKS,
                new_table == self.peak_tracker.peaks@,
                peaks.len() == i,
                forall|k: int| 0 <= k < i ==> #[trigger] peaks@[k] == new_table[k],
            decreases MAX_PEAKS - i,
        {
            peaks.push(self.peak_tracker.peaks[i]);
            i = i + 1;
        }
        proof {
            assert(peaks@ =~= new_table);
        }
        if self.synth_mode {
            let ghost pre: Seq<VoiceModel> = models_of(self.synth.voices@);
            let n: usize = NUM_VOICES;
            let mut v: usize = 0;
            while v < n
                invariant
                    v <= n,
                    n == NUM_VOICES,
                    self.synth.voices.len() == n,
                    pre.len() == n,
                    peaks.len() == MAX_PEAKS,
                    peaks_wf(peaks@),
                    peaks@ == new_table,
                    self.peak_tracker.peaks@ == new_table,
                    self.peak_tracker.wf(),
                    new_table == tracker_updated(
                        old(self).peak_tracker.peaks@,
                        analyzed_peaks(mags@, old(self).sample_rate as int),
                    ),
                    self.peak_analyzer == old(self).peak_analyzer,
                    self.buffer == old(self).buffer,
                    self.sample_rate == old(self).sample_rate,
                    self.freeze == old(self).freeze,
                    self.transpose == old(self).transpose,
                    self.detune == old(self).detune,
                    self.synth_mode == old(self).synth_mode,
                    self.default_voice == old(self).default_voice,
                    old(self).wf(),
                    -SAT <= self.transpose <= SAT,
                    -SAT <= self.detune <= SAT,
                    forall|u: int|
                        0 <= u < v ==> (#[trigger] self.synth.voices@[u]).model()
                            == prepared_model(
                            pre[u],
                            peaks@,
                            self.freeze,
                            self.transpose,
                            self.detune,
                        ),
                    forall|u: int|
                        v <= u < n ==> (#[trigger] self.synth.voices@[u]).model() == pre[u],
                    forall|u: int| 0 <= u < n ==> (#[trigger] self.synth.voices@[u]).wf(),
                decreases n - v,
            {
                let ghost before: Seq<Voice> = self.synth.voices@;
                let mut voice: Voice = self.synth.voices.remove(v);
                voice.prepare_oscillators(
                    peaks.as_slice(),
                    self.freeze,
                    self.transpose,
                    self.detune,
                );
                self.synth.voices.insert(v, voice);
                proof {
                    assert(self.synth.voices@ =~= before.update(v as int, voice));
                }
                v = v + 1;
            }
            proof {
                assert(models_of(self.synth.voices@) =~= prepared_models(
                    pre,
                    peaks@,
                    self.freeze,
                    self.transpose,
                    self.detune,
                ));
            }
            self.synth.render_block(output, events);
        } else {
            let freeze: bool = self.freeze;
            let transpose: i64 = self.transpose;
            let detune: i64 = self.detune;
            self.default_voice.prepare_oscillators(peaks.as_slice(), freeze, transpose, detune);
            self.default_voice.render_block(output);
        }
    }
}

} // verus!
