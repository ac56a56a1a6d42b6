//! Spectral peak extraction with sub-bin quadratic refinement.
//!
//! The host shell windows the latest 512 samples, zero-pads them to
//! 1024 and computes a forward real FFT; the analyzer consumes the 513
//! resulting bin magnitudes (Q32.32). It picks up to 20 bins that exceed
//! a fixed threshold and strictly dominate both immediate and both
//! second-nearest neighbours, keeps the 20 of greatest magnitude (ties
//! toward the lower bin), refines each to sub-bin accuracy by quadratic
//! interpolation, and reports peaks in descending-magnitude slot order.

use vstd::arithmetic::div_mod::{lemma_div_pos_is_pos, lemma_multiply_divide_le};
use vstd::prelude::*;

use crate::fixed::{div_fx, mul_fx, q_div_sat, q_mul_sat, SAT, SCALE};
use crate::peak::{peaks_wf, Peak, MAX_PEAKS};
use crate::tracker::repeated;

verus! {

/// The magnitude a bin must exceed to be a peak candidate: 0.6 in
/// Q32.32.
pub const THRESHOLD: i64 = 2576980378;

/// The per-peak amplitude normalization `0.2 / sqrt(512)` in Q32.32,
/// matching the analysis window's energy.
pub const AMP_NORM: i64 = 37962506;

/// The number of FFT bins the analyzer reads: a 1024-point real FFT
/// yields 513 complex bins.
pub const NUM_BINS: usize = 513;

/// Whether bin `k` is a peak candidate: above the threshold and
/// strictly above its two neighbours on each side.
pub open spec fn is_candidate(mags: Seq<i64>, k: int) -> bool {
    &&& 2 <= k < 511
    &&& mags[k] > THRESHOLD
    &&& mags[k] > mags[k - 1]
    &&& mags[k] > mags[k + 1]
    &&& mags[k] > mags[k - 2]
    &&& mags[k] > mags[k + 2]
}

/// The best not-yet-chosen candidate among bins `[0, k)`: greatest
/// magnitude, ties broken toward the lower bin.
pub open spec fn best_bin_upto(mags: Seq<i64>, chosen: Seq<bool>, k: nat) -> Option<int>
    decreases k,
{
    if k == 0 {
        None
    } else {
        let prev = best_bin_upto(mags, chosen, (k - 1) as nat);
        if is_candidate(mags, k - 1) && !chosen[k - 1] {
            match prev {
                None => Some(k - 1),
                Some(p) => if mags[k - 1] > mags[p] {
                    Some(k - 1)
                } else {
                    Some(p)
                },
            }
        } else {
            prev
        }
    }
}

/// A best bin is an unchosen candidate.
proof fn lemma_best_bin_props(mags: Seq<i64>, chosen: Seq<bool>, k: nat)
    requires
        k <= mags.len(),
    ensures
        best_bin_upto(mags, chosen, k) matches Some(kb) ==> 0 <= kb < k && is_candidate(mags, kb)
            && !chosen[kb],
    decreases k,
{
    if k > 0 {
        lemma_best_bin_props(mags, chosen, (k - 1) as nat);
    }
}

/// The retained bins in slot order: repeatedly take the strongest
/// remaining candidate, at most `fuel` times.
pub open spec fn selected_bins(mags: Seq<i64>, chosen: Seq<bool>, fuel: nat) -> Seq<int>
    decreases fuel,
{
    if fuel == 0 {
        Seq::empty()
    } else {
        match best_bin_upto(mags, chosen, mags.len()) {
            None => Seq::empty(),
            Some(kb) => seq![kb] + selected_bins(mags, chosen.update(kb, true), (fuel - 1) as nat),
        }
    }
}

/// The quadratic-interpolation offset for bin `k`, in Q32.32 bins:
/// `(m[k+1] - m[k-1]) / (2 * (2*m[k] - m[k-1] - m[k+1]))`, zero when
/// the denominator vanishes.
pub open spec fn refined_offset(mags: Seq<i64>, k: int) -> int {
    let num: int = mags[k + 1] - mags[k - 1];
    let den: int = 2 * (2 * mags[k] - mags[k - 1] - mags[k + 1]);
    if den == 0 {
        0
    } else {
        q_div_sat(num, den)
    }
}

/// The refined frequency of bin `k` in Hz (Q32.32):
/// `(k + offset) * sample_rate / 1024`.
pub open spec fn refined_freq(mags: Seq<i64>, k: int, sample_rate: int) -> int {
    q_mul_sat(k * SCALE + refined_offset(mags, k), sample_rate * (SCALE as int) / 1024)
}

/// The reported peak for bin `k`.
pub open spec fn analyzed_peak(mags: Seq<i64>, k: int, sample_rate: int) -> Peak {
    Peak {
        frequency: refined_freq(mags, k, sample_rate) as i64,
        amplitude: q_mul_sat(mags[k] as int, AMP_NORM as int) as i64,
    }
}

/// The full slot table reported for one magnitude spectrum: the refined
/// peaks of the retained bins, slot-packed from index 0, empty beyond.
pub open spec fn analyzed_peaks(mags: Seq<i64>, sample_rate: int) -> Seq<Option<Peak>> {
    let bins = selected_bins(mags, repeated(false, mags.len()), MAX_PEAKS as nat);
    Seq::new(
        MAX_PEAKS as nat,
        |i: int|
            if i < bins.len() {
                Some(analyzed_peak(mags, bins[i], sample_rate))
            } else {
                None
            },
    )
}

/// For a candidate bin the interpolation denominator is positive and
/// the offset magnitude stays below half a bin.
proof fn lemma_refined_offset_bounds(mags: Seq<i64>, k: int)
    requires
        0 <= k - 2,
        k + 2 < mags.len(),
        is_candidate(mags, k),
        forall|i: int| 0 <= i < mags.len() ==> 0 <= #[trigger] mags[i] <= SAT,
    ensures
        2 * (2 * mags[k] - mags[k - 1] - mags[k + 1]) >= 4,
        -(SCALE as int) < refined_offset(mags, k) < SCALE,
{
    let num: int = mags[k + 1] - mags[k - 1];
    let den: int = 2 * (2 * mags[k] - mags[k - 1] - mags[k + 1]);
    assert(den >= 4);
    assert(2 * num <= den - 2 && 2 * (-num) <= den - 2);
    let half: int = (SCALE as int) / 2;
    assert(num * (SCALE as int) < den * half && (-num) * (SCALE as int) < den * half)
        by (nonlinear_arith)
        requires
            2 * num <= den - 2,
            2 * (-num) <= den - 2,
            den >= 4,
            half == (SCALE as int) / 2,
            2 * half == SCALE,
            SCALE >= 2,
    ;
    if num >= 0 {
        vstd::arithmetic::div_mod::lemma_multiply_divide_lt(num * (SCALE as int), den, half);
        lemma_div_pos_is_pos(num * (SCALE as int), den);
    } else {
        vstd::arithmetic::div_mod::lemma_multiply_divide_lt((-num) * (SCALE as int), den, half);
        lemma_div_pos_is_pos((-num) * (SCALE as int), den);
    }
}

/// Spectral peak extraction over a precomputed magnitude spectrum.
pub struct PeakAnalyzer {
    pub sample_rate: u32,
}

impl PeakAnalyzer {
    pub open spec fn wf(self) -> bool {
        40 <= self.sample_rate <= 10000000
    }

    pub fn new(sample_rate: u32) -> (r: Self)
        requires
            40 <= sample_rate <= 10000000,
        ensures
            r.sample_rate == sample_rate,
            r.wf(),
    {
        Self { sample_rate }
    }

    /// Pick, order and refine the peaks of one magnitude spectrum, as
    /// described by [`analyzed_peaks`].
    pub fn get_raw_peaks(&self, mags: &[i64]) -> (r: Vec<Option<Peak>>)
        requires
            self.wf(),
            mags.len() == NUM_BINS,
            forall|i: int| 0 <= i < mags.len() ==> 0 <= #[trigger] mags@[i] <= SAT,
        ensures
            r@ == analyzed_peaks(mags@, self.sample_rate as int),
            r.len() == MAX_PEAKS,
            peaks_wf(r@),
    {
        let nb: usize = NUM_BINS;
        let mut chosen: Vec<bool> = Vec::new();
        let mut i: usize = 0;
        while i < nb
            invariant
                i <= nb,
                nb == NUM_BINS,
                chosen@ =~= repeated(false, i as nat),
            decreases nb - i,
        {
            chosen.push(false);
            proof {
                assert(chosen@ =~= repeated(false, (i + 1) as nat));
            }
            i = i + 1;
        }
        let ghost target_bins: Seq<int> = selected_bins(
            mags@,
            repeated(false, mags@.len()),
            MAX_PEAKS as nat,
        );
        let mut bins: Vec<usize> = Vec::new();
        let ghost mut gbins: Seq<int> = Seq::empty();
        proof {
            assert(Seq::<int>::empty() + target_bins =~= target_bins);
            assert(chosen@ =~= repeated(false, mags@.len()));
        }
        let mut round: usize = 0;
        let mut done: bool = false;
        while round < MAX_PEAKS && !done
            invariant
                round <= MAX_PEAKS,
                nb == NUM_BINS,
                mags.len() == nb,
                chosen.len() == nb,
                bins.len() == round,
                gbins.len() == round,
                forall|u: int| 0 <= u < round ==> gbins[u] == bins@[u],
                forall|u: int|
                    0 <= u < round ==> 2 <= #[trigger] bins@[u] < 511,
                target_bins == selected_bins(mags@, repeated(false, mags@.len()), MAX_PEAKS as nat),
                gbins + selected_bins(mags@, chosen@, (MAX_PEAKS - round) as nat) == target_bins,
                done ==> gbins == target_bins,
                forall|i2: int| 0 <= i2 < mags.len() ==> 0 <= #[trigger] mags@[i2] <= SAT,
            decreases MAX_PEAKS - round, (if done { 0int } else { 1int }),
        {
            let mut best: Option<usize> = None;
            let mut k: usize = 0;
            while k < nb
                invariant
                    k <= nb,
                    nb == NUM_BINS,
                    mags.len() == nb,
                    chosen.len() == nb,
                    match best {
                        None => best_bin_upto(mags@, chosen@, k as nat) is None,
                        Some(kb) => best_bin_upto(mags@, chosen@, k as nat) == Some(kb as int)
                            && kb < nb,
                    },
                decreases nb - k,
            {
                if k >= 2 && k < 511 && !chosen[k] {
                    let m: i64 = mags[k];
                    if m > THRESHOLD && m > mags[k - 1] && m > mags[k + 1] && m > mags[k - 2] && m
                        > mags[k + 2] {
                        best = match best {
                            None => Some(k),
                            Some(p) => if m > mags[p] {
                                Some(k)
                            } else {
                                Some(p)
                            },
                        };
                    }
                }
                k = k + 1;
            }
            match best {
                None => {
                    proof {
                        assert(selected_bins(mags@, chosen@, (MAX_PEAKS - round) as nat)
                            =~= Seq::<int>::empty());
                        assert(gbins + Seq::<int>::empty() =~= gbins);
                    }
                    done = true;
                },
                Some(kb) => {
                    proof {
                        lemma_best_bin_props(mags@, chosen@, mags@.len());
                        assert((seq![kb as int] + selected_bins(
                            mags@,
                            chosen@.update(kb as int, true),
                            (MAX_PEAKS - round - 1) as nat,
                        )).drop_first() =~= selected_bins(
                            mags@,
                            chosen@.update(kb as int, true),
                            (MAX_PEAKS - round - 1) as nat,
                        ));
                        gbins = gbins + seq![kb as int];
                        assert(gbins + selected_bins(
                            mags@,
                            chosen@.update(kb as int, true),
                            (MAX_PEAKS - round - 1) as nat,
                        ) =~= target_bins);
                    }
                    chosen.set(kb, true);
                    bins.push(kb);
                    round = round + 1;
                },
            }
        }
        proof {
            if !done {
                assert(round == MAX_PEAKS);
                assert(selected_bins(mags@, chosen@, 0) =~= Seq::<int>::empty());
            }
            assert(gbins + Seq::<int>::empty() =~= gbins);
            assert(gbins == target_bins);
        }
        // Refine each retained bin and fill the slot table.
        let fpb_num: i64 = (self.sample_rate as i64) * SCALE;
        let fpb: i64 = fpb_num / 1024;
        proof {
            lemma_div_pos_is_pos(fpb_num as int, 1024);
            lemma_multiply_divide_le(fpb_num as int, 1024, SAT as int);
        }
        let mut r: Vec<Option<Peak>> = Vec::new();
        let mut i: usize = 0;
        while i < MAX_PEAKS
            invariant
                i <= MAX_PEAKS,
                nb == NUM_BINS,
                mags.len() == nb,
                bins.len() == gbins.len() <= MAX_PEAKS,
                forall|u: int| 0 <= u < gbins.len() ==> gbins[u] == bins@[u],
                forall|u: int| 0 <= u < gbins.len() ==> 2 <= #[trigger] bins@[u] < 511,
                gbins == target_bins,
                target_bins == selected_bins(mags@, repeated(false, mags@.len()), MAX_PEAKS as nat),
                forall|i2: int| 0 <= i2 < mags.len() ==> 0 <= #[trigger] mags@[i2] <= SAT,
                0 <= fpb <= SAT,
                fpb == (self.sample_rate as int) * (SCALE as int) / 1024,
                r.len() == i,
                forall|u: int|
                    0 <= u < i ==> #[trigger] r@[u] == analyzed_peaks(
                        mags@,
                        self.sample_rate as int,
                    )[u],
                peaks_wf(r@),
            decreases MAX_PEAKS - i,
        {
            if i < bins.len() {
                let k: usize = bins[i];
                let num: i64 = mags[k + 1] - mags[k - 1];
                let den: i64 = 2 * (2 * mags[k] - mags[k - 1] - mags[k + 1]);
                proof {
                    lemma_best_bin_selected(mags@, repeated(false, mags@.len()), MAX_PEAKS as nat, i as int);
                    lemma_refined_offset_bounds(mags@, k as int);
                }
                let offset: i64 = if den == 0 {
                    0
                } else {
                    div_fx(num, den)
                };
                let bin_pos: i64 = (k as i64) * SCALE + offset;
                let frequency: i64 = mul_fx(bin_pos, fpb);
                proof {
                    crate::fixed::lemma_q_mul_sat_nonneg(bin_pos as int, fpb as int);
                    crate::fixed::lemma_q_mul_sat_nonneg(mags@[k as int] as int, AMP_NORM as int);
                }
                let amplitude: i64 = mul_fx(mags[k], AMP_NORM);
                r.push(Some(Peak { frequency, amplitude }));
            } else {
                r.push(None);
            }
            i = i + 1;
        }
        proof {
            assert(r@ =~= analyzed_peaks(mags@, self.sample_rate as int));
        }
        r
    }
}

/// Every selected bin is a candidate that was still unchosen when the
/// selection began.
proof fn lemma_best_bin_selected(mags: Seq<i64>, chosen: Seq<bool>, fuel: nat, u: int)
    requires
        chosen.len() == mags.len(),
        0 <= u < selected_bins(mags, chosen, fuel).len(),
    ensures
        is_candidate(mags, selected_bins(mags, chosen, fuel)[u]),
        !chosen[selected_bins(mags, chosen, fuel)[u]],
        0 <= selected_bins(mags, chosen, fuel)[u] < mags.len(),
    decreases fuel,
{
    if fuel > 0 {
        match best_bin_upto(mags, chosen, mags.len()) {
            None => {},
            Some(kb) => {
                lemma_best_bin_props(mags, chosen, mags.len());
                if u > 0 {
                    lemma_best_bin_selected(mags, chosen.update(kb, true), (fuel - 1) as nat, u - 1);
                }
            },
        }
    }
}

/// The best bin carries the greatest magnitude among the unchosen
/// candidates in range.
proof fn lemma_best_bin_maximal(mags: Seq<i64>, chosen: Seq<bool>, k: nat)
    requires
        k <= mags.len(),
    ensures
        forall|j: int|
            0 <= j < k && #[trigger] is_candidate(mags, j) && !chosen[j]
                ==> best_bin_upto(mags, chosen, k) is Some && mags[j] <= mags[best_bin_upto(
                mags,
                chosen,
                k,
            ).unwrap()],
    decreases k,
{
    if k > 0 {
        lemma_best_bin_maximal(mags, chosen, (k - 1) as nat);
    }
}

/// The retained bins come out in order of non-increasing magnitude.
proof fn lemma_selected_bins_ordered(mags: Seq<i64>, chosen: Seq<bool>, fuel: nat, u: int, v: int)
    requires
        chosen.len() == mags.len(),
        0 <= u < v < selected_bins(mags, chosen, fuel).len(),
    ensures
        mags[selected_bins(mags, chosen, fuel)[v]] <= mags[selected_bins(mags, chosen, fuel)[u]],
    decreases fuel,
{
    let s = selected_bins(mags, chosen, fuel);
    let kb: int = best_bin_upto(mags, chosen, mags.len()).unwrap();
    let chosen2 = chosen.update(kb, true);
    let rest = selected_bins(mags, chosen2, (fuel - 1) as nat);
    lemma_best_bin_props(mags, chosen, mags.len());
    assert(s == seq![kb] + rest);
    if u == 0 {
        lemma_best_bin_selected(mags, chosen2, (fuel - 1) as nat, v - 1);
        assert(s[v] == rest[v - 1]);
        assert(is_candidate(mags, s[v]) && !chosen2[s[v]] && 0 <= s[v] < mags.len());
        assert(s[v] != kb);
        assert(!chosen[s[v]]);
        lemma_best_bin_maximal(mags, chosen, mags.len());
    } else {
        lemma_selected_bins_ordered(mags, chosen2, (fuel - 1) as nat, u - 1, v - 1);
        assert(s[u] == rest[u - 1] && s[v] == rest[v - 1]);
    }
}

/// The slot-order law: the reported peak table is slot-packed from
/// index 0 and ordered by descending magnitude — a present slot is
/// preceded only by present slots of no smaller amplitude.
pub proof fn lemma_peaks_ordered_by_magnitude(mags: Seq<i64>, sample_rate: int, u: int, v: int)
    requires
        mags.len() == NUM_BINS,
        forall|i: int| 0 <= i < mags.len() ==> 0 <= #[trigger] mags[i] <= SAT,
        0 <= u < v < MAX_PEAKS,
        analyzed_peaks(mags, sample_rate)[v] is Some,
    ensures
        analyzed_peaks(mags, sample_rate)[u] is Some,
        analyzed_peaks(mags, sample_rate)[u].unwrap().amplitude >= analyzed_peaks(
            mags,
            sample_rate,
        )[v].unwrap().amplitude,
{
    let bins = selected_bins(mags, repeated(false, mags.len()), MAX_PEAKS as nat);
    lemma_selected_bins_ordered(mags, repeated(false, mags.len()), MAX_PEAKS as nat, u, v);
    lemma_best_bin_selected(mags, repeated(false, mags.len()), MAX_PEAKS as nat, u);
    lemma_best_bin_selected(mags, repeated(false, mags.len()), MAX_PEAKS as nat, v);
    crate::fixed::lemma_q_mul_sat_monotone(
        mags[bins[v]] as int,
        mags[bins[u]] as int,
        AMP_NORM as int,
    );
    crate::fixed::lemma_q_mul_sat_nonneg(mags[bins[u]] as int, AMP_NORM as int);
    crate::fixed::lemma_q_mul_sat_nonneg(mags[bins[v]] as int, AMP_NORM as int);
}

} // verus!
