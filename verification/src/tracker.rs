//! Frame-to-frame peak continuity tracking.
//!
//! The tracker keeps a persistent 20-slot table of peaks. Each analysis
//! frame, the new unordered batch is reassigned onto the existing slots
//! by nearest-frequency greedy matching: pairs are accepted in ascending
//! distance order (at most 187.5 Hz), never reusing a table slot or a
//! batch peak; ties are broken toward the lower table slot, then the
//! lower batch slot. Batch peaks left unmatched move, in ascending batch
//! order, into the lowest table slots still empty, so peaks are never
//! dropped; slots that receive nothing become empty.

use vstd::prelude::*;

use crate::peak::{peaks_wf, Peak, MAX_PEAKS};

verus! {

/// The frequency distance between table slot `a` and batch slot `b`.
#[derive(Clone, Copy, Debug, PartialEq, Eq, Structural)]
pub struct FrequencyDistance {
    pub a: usize,
    pub b: usize,
    pub distance: i64,
}

/// The greatest frequency distance (187.5 Hz, Q32.32) at which a batch
/// peak may be matched onto an occupied table slot.
pub const MAX_DISTANCE: i64 = 805306368000;

/// The distance entry for table slot `i` and batch slot `j`: present
/// exactly when both slots hold a peak.
pub open spec fn peak_distance(
    a: Seq<Option<Peak>>,
    b: Seq<Option<Peak>>,
    i: int,
    j: int,
) -> Option<FrequencyDistance> {
    match (a[i], b[j]) {
        (Some(pa), Some(pb)) => Some(
            FrequencyDistance {
                a: i as usize,
                b: j as usize,
                distance: (if pa.frequency >= pb.frequency {
                    pa.frequency - pb.frequency
                } else {
                    pb.frequency - pa.frequency
                }) as i64,
            },
        ),
        _ => None,
    }
}

/// The full pairwise distance matrix in row-major order.
pub open spec fn distance_matrix(a: Seq<Option<Peak>>, b: Seq<Option<Peak>>) -> Seq<
    Option<FrequencyDistance>,
> {
    Seq::new(a.len() * b.len(), |k: int| peak_distance(a, b, k / (b.len() as int), k % (b.len() as int)))
}

/// Every present entry of a distance matrix over `n` slots indexes
/// inside the tables and has a nonnegative distance.
pub open spec fn dists_wf(d: Seq<Option<FrequencyDistance>>, n: int) -> bool {
    forall|k: int|
        0 <= k < d.len() ==> (#[trigger] d[k] matches Some(fd) ==> fd.a < n && fd.b < n
            && fd.distance >= 0)
}

/// Whether matrix entry `k` may still be accepted: present, neither
/// side claimed, and within the matching threshold.
pub open spec fn eligible(
    d: Seq<Option<FrequencyDistance>>,
    ta: Seq<bool>,
    tb: Seq<bool>,
    k: int,
) -> bool {
    d[k] matches Some(fd) && !ta[fd.a as int] && !tb[fd.b as int] && fd.distance <= MAX_DISTANCE
}

/// The best eligible pair among the first `k` matrix entries: least
/// distance, ties broken toward the earliest entry.
pub open spec fn best_pair_upto(
    d: Seq<Option<FrequencyDistance>>,
    ta: Seq<bool>,
    tb: Seq<bool>,
    k: nat,
) -> Option<FrequencyDistance>
    decreases k,
{
    if k == 0 {
        None
    } else {
        let prev = best_pair_upto(d, ta, tb, (k - 1) as nat);
        if eligible(d, ta, tb, k - 1) {
            let cur = d[k - 1].unwrap();
            match prev {
                None => Some(cur),
                Some(p) => if cur.distance < p.distance {
                    Some(cur)
                } else {
                    Some(p)
                },
            }
        } else {
            prev
        }
    }
}

/// A best pair is an eligible matrix entry.
proof fn lemma_best_pair_props(
    d: Seq<Option<FrequencyDistance>>,
    ta: Seq<bool>,
    tb: Seq<bool>,
    k: nat,
)
    requires
        k <= d.len(),
    ensures
        best_pair_upto(d, ta, tb, k) matches Some(fd) ==> exists|idx: int|
            0 <= idx < k && #[trigger] eligible(d, ta, tb, idx) && d[idx] == Some(fd),
    decreases k,
{
    if k > 0 {
        lemma_best_pair_props(d, ta, tb, (k - 1) as nat);
    }
}

/// The greedy matching: repeatedly accept the best remaining eligible
/// pair, claiming its table slot and its batch slot, until no pair is
/// left or the round budget is spent.
pub open spec fn greedy_rec(
    d: Seq<Option<FrequencyDistance>>,
    ta: Seq<bool>,
    tb: Seq<bool>,
    matches: Seq<Option<usize>>,
    fuel: nat,
) -> Seq<Option<usize>>
    decreases fuel,
{
    if fuel == 0 {
        matches
    } else {
        match best_pair_upto(d, ta, tb, d.len()) {
            None => matches,
            Some(fd) => greedy_rec(
                d,
                ta.update(fd.a as int, true),
                tb.update(fd.b as int, true),
                matches.update(fd.a as int, Some(fd.b)),
                (fuel - 1) as nat,
            ),
        }
    }
}

/// A sequence of `n` copies of one value.
pub open spec fn repeated<A>(v: A, n: nat) -> Seq<A> {
    Seq::new(n, |i: int| v)
}

/// For each table slot, the batch slot matched onto it by the greedy
/// assignment, if any.
pub open spec fn matches_spec(a: Seq<Option<Peak>>, b: Seq<Option<Peak>>) -> Seq<Option<usize>> {
    greedy_rec(
        distance_matrix(a, b),
        repeated(false, a.len()),
        repeated(false, b.len()),
        repeated(None, a.len()),
        a.len(),
    )
}

/// Fill the pairwise frequency distances between every slot of `a` and
/// every slot of `b` into `output`, row-major; pairs involving an empty
/// slot have no distance.
pub fn calculate_peak_distances(
    a: &[Option<Peak>],
    b: &[Option<Peak>],
    output: &mut Vec<Option<FrequencyDistance>>,
)
    requires
        a.len() == b.len(),
        1 <= a.len() <= 1000,
        old(output).len() == a.len() * b.len(),
        peaks_wf(a@),
        peaks_wf(b@),
    ensures
        final(output)@ == distance_matrix(a@, b@),
{
    let n: usize = a.len();
    let ghost target: Seq<Option<FrequencyDistance>> = distance_matrix(a@, b@);
    proof {
        assert(a@.len() * b@.len() == n * n) by (nonlinear_arith)
            requires
                a@.len() == n,
                b@.len() == n,
        ;
    }
    let mut index_a: usize = 0;
    while index_a < n
        invariant
            index_a <= n,
            1 <= n <= 1000,
            n == a.len() == b.len(),
            output.len() == n * n,
            target == distance_matrix(a@, b@),
            target.len() == n * n,
            peaks_wf(a@),
            peaks_wf(b@),
            forall|k: int| 0 <= k < index_a * n ==> #[trigger] output@[k] == target[k],
            forall|k: int| index_a * n <= k < n * n ==> #[trigger] output@[k] == old(output)@[k],
        decreases n - index_a,
    {
        let mut index_b: usize = 0;
        while index_b < n
            invariant
                index_a < n,
                index_b <= n,
                1 <= n <= 1000,
                n == a.len() == b.len(),
                output.len() == n * n,
                target == distance_matrix(a@, b@),
                target.len() == n * n,
                peaks_wf(a@),
                peaks_wf(b@),
                forall|k: int|
                    0 <= k < index_a * n + index_b ==> #[trigger] output@[k] == target[k],
                forall|k: int|
                    index_a * n + index_b <= k < n * n ==> #[trigger] output@[k] == old(
                        output,
                    )@[k],
            decreases n - index_b,
        {
            proof {
                assert(index_a * n + index_b < n * n && index_a * n + n <= n * n)
                    by (nonlinear_arith)
                    requires
                        0 <= index_a < n,
                        0 <= index_b < n,
                ;
                vstd::arithmetic::div_mod::lemma_fundamental_div_mod_converse(
                    (index_a * n + index_b) as int,
                    n as int,
                    index_a as int,
                    index_b as int,
                );
            }
            let index: usize = index_a * n + index_b;
            let entry: Option<FrequencyDistance> = match (&a[index_a], &b[index_b]) {
                (Some(item_a), Some(item_b)) => {
                    let distance: i64 = if item_a.frequency >= item_b.frequency {
                        item_a.frequency - item_b.frequency
                    } else {
                        item_b.frequency - item_a.frequency
                    };
                    Some(FrequencyDistance { a: index_a, b: index_b, distance })
                },
                _ => None,
            };
            output.set(index, entry);
            index_b = index_b + 1;
        }
        proof {
            assert((index_a + 1) * n == index_a * n + n) by (nonlinear_arith);
        }
        index_a = index_a + 1;
    }
    proof {
        assert(n * n <= n * n);
        assert(output@ =~= target);
    }
}

/// The greedy nearest-frequency assignment of batch slots onto table
/// slots, as described by [`matches_spec`].
pub fn match_closest_peaks(a: &[Option<Peak>], b: &[Option<Peak>]) -> (matches: Vec<Option<usize>>)
    requires
        a.len() == b.len() == MAX_PEAKS,
        peaks_wf(a@),
        peaks_wf(b@),
    ensures
        matches@ == matches_spec(a@, b@),
        matches.len() == MAX_PEAKS,
    {
    let n: usize = MAX_PEAKS;
    let mut distances: Vec<Option<FrequencyDistance>> = Vec::new();
    let mut k: usize = 0;
    while k < n * n
        invariant
            k <= n * n,
            n == MAX_PEAKS,
            distances.len() == k,
        decreases n * n - k,
    {
        distances.push(None);
        k = k + 1;
    }
    calculate_peak_distances(a, b, &mut distances);
    let ghost d: Seq<Option<FrequencyDistance>> = distances@;
    proof {
        assert forall|k2: int| 0 <= k2 < d.len() implies (#[trigger] d[k2] matches Some(fd)
            ==> fd.a < n && fd.b < n && fd.distance >= 0) by {
            if d[k2] is Some {
                vstd::arithmetic::div_mod::lemma_mod_bound(k2, n as int);
                vstd::arithmetic::div_mod::lemma_div_pos_is_pos(k2, n as int);
                vstd::arithmetic::div_mod::lemma_multiply_divide_lt(k2, n as int, n as int);
            }
        };
    }
    let mut taken_from_a: Vec<bool> = Vec::new();
    let mut taken_from_b: Vec<bool> = Vec::new();
    let mut matches: Vec<Option<usize>> = Vec::new();
    let mut i: usize = 0;
    while i < n
        invariant
            i <= n,
            n == MAX_PEAKS,
            taken_from_a@ =~= repeated(false, i as nat),
            taken_from_b@ =~= repeated(false, i as nat),
            matches@ =~= repeated(None::<usize>, i as nat),
        decreases n - i,
    {
        taken_from_a.push(false);
        taken_from_b.push(false);
        matches.push(None);
        proof {
            assert(taken_from_a@ =~= repeated(false, (i + 1) as nat));
            assert(taken_from_b@ =~= repeated(false, (i + 1) as nat));
            assert(matches@ =~= repeated(None::<usize>, (i + 1) as nat));
        }
        i = i + 1;
    }
    let ghost target: Seq<Option<usize>> = matches_spec(a@, b@);
    let mut round: usize = 0;
    let mut done: bool = false;
    while round < n && !done
        invariant
            round <= n,
            n == MAX_PEAKS,
            d == distances@,
            d.len() == n * n,
            dists_wf(d, n as int),
            taken_from_a.len() == n,
            taken_from_b.len() == n,
            matches.len() == n,
            target == matches_spec(a@, b@),
            greedy_rec(d, taken_from_a@, taken_from_b@, matches@, (n - round) as nat) == target,
            done ==> matches@ == target,
        decreases n - round, (if done { 0int } else { 1int }),
    {
        // Scan the whole matrix for the best eligible pair.
        let mut best: Option<FrequencyDistance> = None;
        let mut idx: usize = 0;
        while idx < n * n
            invariant
                idx <= n * n,
                n == MAX_PEAKS,
                d == distances@,
                d.len() == n * n,
                dists_wf(d, n as int),
                taken_from_a.len() == n,
                taken_from_b.len() == n,
                best == best_pair_upto(d, taken_from_a@, taken_from_b@, idx as nat),
            decreases n * n - idx,
        {
            if let Some(fd) = distances[idx] {
                if !taken_from_a[fd.a] && !taken_from_b[fd.b] && fd.distance <= MAX_DISTANCE {
                    best = match best {
                        None => Some(fd),
                        Some(p) => if fd.distance < p.distance {
                            Some(fd)
                        } else {
                            Some(p)
                        },
                    };
                }
            }
            idx = idx + 1;
        }
        match best {
            None => {
                done = true;
            },
            Some(fd) => {
                proof {
                    lemma_best_pair_props(d, taken_from_a@, taken_from_b@, (n * n) as nat);
                }
                taken_from_a.set(fd.a, true);
                taken_from_b.set(fd.b, true);
                matches.set(fd.a, Some(fd.b));
                round = round + 1;
            },
        }
    }
    proof {
        if !done {
            assert(round == n);
        }
    }
    matches
}

/// Whether batch slot `j` was claimed by the matching.
pub open spec fn batch_claimed(matches: Seq<Option<usize>>, j: int) -> bool {
    exists|i: int| 0 <= i < matches.len() && #[trigger] matches[i] == Some(j as usize)
}

/// The table after the matched batch peaks moved onto their slots.
pub open spec fn moved_table(b: Seq<Option<Peak>>, matches: Seq<Option<usize>>) -> Seq<
    Option<Peak>,
> {
    Seq::new(
        matches.len(),
        |i: int|
            match matches[i] {
                Some(j) => b[j as int],
                None => None,
            },
    )
}

/// The index of the first empty table slot at or after `k`.
pub open spec fn first_empty_from(t: Seq<Option<Peak>>, k: nat) -> Option<int>
    decreases t.len() - k,
{
    if k >= t.len() {
        None
    } else if t[k as int] is None {
        Some(k as int)
    } else {
        first_empty_from(t, k + 1)
    }
}

/// Place one peak into the first empty slot, if any slot is empty.
pub open spec fn place_first_empty(t: Seq<Option<Peak>>, p: Peak) -> Seq<Option<Peak>> {
    match first_empty_from(t, 0) {
        None => t,
        Some(s) => t.update(s, Some(p)),
    }
}

/// Place each peak, in order, into the first table slot still empty.
pub open spec fn place_all(t: Seq<Option<Peak>>, rest: Seq<Peak>) -> Seq<Option<Peak>>
    decreases rest.len(),
{
    if rest.len() == 0 {
        t
    } else {
        place_all(place_first_empty(t, rest.first()), rest.drop_first())
    }
}

/// The batch peaks from slot `j` on that the matching left unclaimed,
/// in ascending batch order.
pub open spec fn unmatched_from(
    b: Seq<Option<Peak>>,
    matches: Seq<Option<usize>>,
    j: nat,
) -> Seq<Peak>
    decreases b.len() - j,
{
    if j >= b.len() {
        Seq::empty()
    } else {
        let rest = unmatched_from(b, matches, j + 1);
        match b[j as int] {
            Some(p) => if !batch_claimed(matches, j as int) {
                seq![p] + rest
            } else {
                rest
            },
            None => rest,
        }
    }
}

/// The table after one whole update: matched batch peaks moved onto
/// their slots, unmatched batch peaks into the lowest slots left empty,
/// all other slots empty.
pub open spec fn tracker_updated(a: Seq<Option<Peak>>, b: Seq<Option<Peak>>) -> Seq<Option<Peak>> {
    let matches = matches_spec(a, b);
    place_all(moved_table(b, matches), unmatched_from(b, matches, 0))
}

/// Every slot the greedy assignment fills holds a batch index below `n`.
proof fn lemma_greedy_range(
    d: Seq<Option<FrequencyDistance>>,
    ta: Seq<bool>,
    tb: Seq<bool>,
    m: Seq<Option<usize>>,
    fuel: nat,
    n: int,
)
    requires
        dists_wf(d, n),
        d.len() <= n * n,
        m.len() == n,
        forall|i: int| 0 <= i < m.len() ==> (#[trigger] m[i] matches Some(j) ==> j < n),
    ensures
        forall|i: int|
            0 <= i < greedy_rec(d, ta, tb, m, fuel).len() ==> (#[trigger] greedy_rec(
                d,
                ta,
                tb,
                m,
                fuel,
            )[i] matches Some(j) ==> j < n),
        greedy_rec(d, ta, tb, m, fuel).len() == m.len(),
    decreases fuel,
{
    if fuel > 0 {
        match best_pair_upto(d, ta, tb, d.len()) {
            None => {},
            Some(fd) => {
                lemma_best_pair_props(d, ta, tb, d.len());
                let idx: int = choose|idx: int|
                    0 <= idx < d.len() && #[trigger] eligible(d, ta, tb, idx) && d[idx] == Some(
                        fd,
                    );
                assert(fd.a < n && fd.b < n);
                let m2: Seq<Option<usize>> = m.update(fd.a as int, Some(fd.b));
                assert forall|i: int| 0 <= i < m2.len() implies (#[trigger] m2[i] matches Some(j)
                    ==> j < n) by {
                    if i != fd.a as int {
                        assert(m2[i] == m[i]);
                    }
                };
                lemma_greedy_range(
                    d,
                    ta.update(fd.a as int, true),
                    tb.update(fd.b as int, true),
                    m.update(fd.a as int, Some(fd.b)),
                    (fuel - 1) as nat,
                    n,
                );
            },
        }
    }
}

/// The persistent 20-slot table of tracked peaks.
pub struct PeakTracker {
    pub peaks: Vec<Option<Peak>>,
}

impl PeakTracker {
    pub open spec fn wf(self) -> bool {
        &&& self.peaks.len() == MAX_PEAKS
        &&& peaks_wf(self.peaks@)
    }

    pub fn new() -> (r: Self)
        ensures
            r.peaks@ =~= repeated(None::<Peak>, MAX_PEAKS as nat),
            r.wf(),
    {
        let mut peaks: Vec<Option<Peak>> = Vec::new();
        let mut i: usize = 0;
        while i < MAX_PEAKS
            invariant
                i <= MAX_PEAKS,
                peaks@ =~= repeated(None::<Peak>, i as nat),
            decreases MAX_PEAKS - i,
        {
            peaks.push(None);
            proof {
                assert(peaks@ =~= repeated(None::<Peak>, (i + 1) as nat));
            }
            i = i + 1;
        }
        Self { peaks }
    }

    /// Reassign the new batch onto the table in place, as described by
    /// [`tracker_updated`].
    pub fn update_peaks(&mut self, batch: &[Option<Peak>])
        requires
            old(self).wf(),
            batch.len() == MAX_PEAKS,
            peaks_wf(batch@),
        ensures
            final(self).peaks@ == tracker_updated(old(self).peaks@, batch@),
            final(self).wf(),
    {
        let n: usize = MAX_PEAKS;
        let matches: Vec<Option<usize>> = match_closest_peaks(self.peaks.as_slice(), batch);
        proof {
            let d: Seq<Option<FrequencyDistance>> = distance_matrix(old(self).peaks@, batch@);
            assert forall|k2: int| 0 <= k2 < d.len() implies (#[trigger] d[k2] matches Some(fd)
                ==> fd.a < n && fd.b < n && fd.distance >= 0) by {
                if d[k2] is Some {
                    vstd::arithmetic::div_mod::lemma_mod_bound(k2, n as int);
                    vstd::arithmetic::div_mod::lemma_div_pos_is_pos(k2, n as int);
                    vstd::arithmetic::div_mod::lemma_multiply_divide_lt(k2, n as int, n as int);
                }
            };
            lemma_greedy_range(
                d,
                repeated(false, n as nat),
                repeated(false, n as nat),
                repeated(None::<usize>, n as nat),
                n as nat,
                n as int,
            );
        }
        // Which batch slots the matching claimed.
        let mut claimed: Vec<bool> = Vec::new();
        let mut i: usize = 0;
        while i < n
            invariant
                i <= n,
                n == MAX_PEAKS,
                claimed@ =~= repeated(false, i as nat),
            decreases n - i,
        {
            claimed.push(false);
            proof {
                assert(claimed@ =~= repeated(false, (i + 1) as nat));
            }
            i = i + 1;
        }
        let mut i: usize = 0;
        while i < n
            invariant
                i <= n,
                n == MAX_PEAKS,
                matches.len() == n,
                claimed.len() == n,
                forall|i2: int|
                    0 <= i2 < n ==> (#[trigger] matches@[i2] matches Some(j) ==> j < n),
                forall|j: int|
                    0 <= j < n ==> #[trigger] claimed@[j] == exists|i2: int|
                        0 <= i2 < i && #[trigger] matches@[i2] == Some(j as usize),
            decreases n - i,
        {
            if let Some(j) = matches[i] {
                claimed.set(j, true);
            }
            i = i + 1;
        }
        proof {
            assert forall|j: int| 0 <= j < n implies #[trigger] claimed@[j] == batch_claimed(
                matches@,
                j,
            ) by {
                if claimed@[j] {
                    assert(batch_claimed(matches@, j));
                }
                if batch_claimed(matches@, j) {
                    let i2: int = choose|i2: int|
                        0 <= i2 < matches@.len() && #[trigger] matches@[i2] == Some(j as usize);
                    assert(claimed@[j]);
                }
            };
        }
        // Move each matched batch peak onto its table slot.
        let mut new_peaks: Vec<Option<Peak>> = Vec::new();
        let mut i: usize = 0;
        while i < n
            invariant
                i <= n,
                n == MAX_PEAKS,
                matches.len() == n,
                batch.len() == n,
                new_peaks.len() == i,
                forall|i2: int|
                    0 <= i2 < n ==> (#[trigger] matches@[i2] matches Some(j) ==> j < n),
                forall|u: int|
                    0 <= u < i ==> #[trigger] new_peaks@[u] == moved_table(batch@, matches@)[u],
                peaks_wf(new_peaks@),
                peaks_wf(batch@),
            decreases n - i,
        {
            match matches[i] {
                Some(t) => {
                    new_peaks.push(batch[t]);
                },
                None => {
                    new_peaks.push(None);
                },
            }
            i = i + 1;
        }
        proof {
            assert(new_peaks@ =~= moved_table(batch@, matches@));
        }
        // Distribute the unclaimed batch peaks into the slots still empty.
        let ghost target: Seq<Option<Peak>> = place_all(
            moved_table(batch@, matches@),
            unmatched_from(batch@, matches@, 0),
        );
        let mut j: usize = 0;
        while j < n
            invariant
                j <= n,
                n == MAX_PEAKS,
                batch.len() == n,
                matches.len() == n,
                claimed.len() == n,
                new_peaks.len() == n,
                peaks_wf(new_peaks@),
                peaks_wf(batch@),
                forall|j2: int|
                    0 <= j2 < n ==> #[trigger] claimed@[j2] == batch_claimed(matches@, j2),
                place_all(new_peaks@, unmatched_from(batch@, matches@, j as nat)) == target,
            decreases n - j,
        {
            if let Some(p) = batch[j] {
                if !claimed[j] {
                    let ghost rest: Seq<Peak> = unmatched_from(batch@, matches@, (j + 1) as nat);
                    proof {
                        assert(unmatched_from(batch@, matches@, j as nat) == seq![p] + rest);
                        assert((seq![p] + rest).first() == p);
                        assert((seq![p] + rest).drop_first() =~= rest);
                    }
                    let mut s: usize = 0;
                    while s < n && new_peaks[s].is_some()
                        invariant
                            s <= n,
                            n == MAX_PEAKS,
                            new_peaks.len() == n,
                            first_empty_from(new_peaks@, 0) == first_empty_from(
                                new_peaks@,
                                s as nat,
                            ),
                        decreases n - s,
                    {
                        s = s + 1;
                    }
                    if s < n {
                        proof {
                            assert(first_empty_from(new_peaks@, s as nat) == Some(s as int));
                        }
                        new_peaks.set(s, Some(p));
                    } else {
                        proof {
                            assert(first_empty_from(new_peaks@, s as nat) is None);
                        }
                    }
                }
            }
            j = j + 1;
        }
        proof {
            assert(unmatched_from(batch@, matches@, n as nat) =~= Seq::<Peak>::empty());
            assert(place_all(new_peaks@, Seq::<Peak>::empty()) == new_peaks@);
        }
        self.peaks = new_peaks;
    }

    /// The current stable peak table.
    pub fn latest(&self) -> (r: &Vec<Option<Peak>>)
        ensures
            r@ == self.peaks@,
    {
        &self.peaks
    }
}

/// Table slot `i` and batch slot `j` are both occupied and their
/// frequencies lie within the matching threshold.
pub open spec fn pair_ok(a: Seq<Option<Peak>>, b: Seq<Option<Peak>>, i: int, j: int) -> bool {
    &&& 0 <= i < a.len()
    &&& 0 <= j < b.len()
    &&& a[i] is Some
    &&& b[j] is Some
    &&& peak_distance(a, b, i, j).unwrap().distance <= MAX_DISTANCE
}

/// Every assignment the greedy matching makes joins two occupied slots
/// within the matching threshold.
proof fn lemma_greedy_matches_ok(
    a: Seq<Option<Peak>>,
    b: Seq<Option<Peak>>,
    ta: Seq<bool>,
    tb: Seq<bool>,
    m: Seq<Option<usize>>,
    fuel: nat,
)
    requires
        a.len() == b.len() == MAX_PEAKS,
        m.len() == MAX_PEAKS,
        peaks_wf(a),
        peaks_wf(b),
        forall|i: int|
            0 <= i < m.len() ==> (#[trigger] m[i] matches Some(j) ==> pair_ok(a, b, i, j as int)),
    ensures
        forall|i: int|
            0 <= i < greedy_rec(distance_matrix(a, b), ta, tb, m, fuel).len() ==> (
            #[trigger] greedy_rec(distance_matrix(a, b), ta, tb, m, fuel)[i] matches Some(j)
                ==> pair_ok(a, b, i, j as int)),
        greedy_rec(distance_matrix(a, b), ta, tb, m, fuel).len() == m.len(),
    decreases fuel,
{
    let d = distance_matrix(a, b);
    if fuel > 0 {
        match best_pair_upto(d, ta, tb, d.len()) {
            None => {},
            Some(fd) => {
                lemma_best_pair_props(d, ta, tb, d.len());
                let idx: int = choose|idx: int|
                    0 <= idx < d.len() && #[trigger] eligible(d, ta, tb, idx) && d[idx] == Some(
                        fd,
                    );
                let n: int = MAX_PEAKS as int;
                vstd::arithmetic::div_mod::lemma_mod_bound(idx, n);
                vstd::arithmetic::div_mod::lemma_div_pos_is_pos(idx, n);
                vstd::arithmetic::div_mod::lemma_multiply_divide_lt(idx, n, n);
                assert(d[idx] == peak_distance(a, b, idx / n, idx % n));
                assert(fd.a == idx / n && fd.b == idx % n);
                assert(pair_ok(a, b, fd.a as int, fd.b as int));
                let m2: Seq<Option<usize>> = m.update(fd.a as int, Some(fd.b));
                assert forall|i: int| 0 <= i < m2.len() implies (#[trigger] m2[i] matches Some(j)
                    ==> pair_ok(a, b, i, j as int)) by {
                    if i != fd.a as int {
                        assert(m2[i] == m[i]);
                    }
                };
                lemma_greedy_matches_ok(
                    a,
                    b,
                    ta.update(fd.a as int, true),
                    tb.update(fd.b as int, true),
                    m2,
                    (fuel - 1) as nat,
                );
            },
        }
    }
}

/// A first empty slot is empty and no earlier slot is.
proof fn lemma_first_empty_props(t: Seq<Option<Peak>>, k: nat)
    requires
        k <= t.len(),
    ensures
        first_empty_from(t, k) matches Some(s) ==> k <= s < t.len() && t[s] is None,
    decreases t.len() - k,
{
    if k < t.len() {
        lemma_first_empty_props(t, k + 1);
    }
}

/// Placing leftover peaks fills only empty slots: occupied slots keep
/// their peak.
proof fn lemma_place_all_preserves(t: Seq<Option<Peak>>, rest: Seq<Peak>, i: int)
    requires
        0 <= i < t.len(),
        t[i] is Some,
    ensures
        place_all(t, rest).len() == t.len(),
        place_all(t, rest)[i] == t[i],
    decreases rest.len(),
{
    if rest.len() > 0 {
        let t2 = place_first_empty(t, rest.first());
        lemma_first_empty_props(t, 0);
        assert(t2.len() == t.len() && t2[i] == t[i]);
        lemma_place_all_preserves(t2, rest.drop_first(), i);
    }
}

/// Slot identity under matching: a batch peak that the greedy
/// assignment matched onto an occupied table slot lands exactly on that
/// slot — within the 187.5 Hz threshold, and never displaced by the
/// unmatched peaks distributed afterwards.
pub proof fn lemma_matched_slot_preserved(a: Seq<Option<Peak>>, b: Seq<Option<Peak>>, i: int)
    requires
        a.len() == b.len() == MAX_PEAKS,
        peaks_wf(a),
        peaks_wf(b),
        0 <= i < MAX_PEAKS,
        matches_spec(a, b)[i] is Some,
    ensures
        tracker_updated(a, b).len() == MAX_PEAKS,
        ({
            let j: int = matches_spec(a, b)[i].unwrap() as int;
            &&& pair_ok(a, b, i, j)
            &&& tracker_updated(a, b)[i] == b[j]
        }),
{
    let matches = matches_spec(a, b);
    lemma_greedy_matches_ok(
        a,
        b,
        repeated(false, a.len()),
        repeated(false, b.len()),
        repeated(None, a.len()),
        a.len(),
    );
    let j: int = matches[i].unwrap() as int;
    assert(pair_ok(a, b, i, j));
    let moved = moved_table(b, matches);
    assert(moved[i] == b[j]);
    lemma_place_all_preserves(moved, unmatched_from(b, matches, 0), i);
}

/// Every leftover peak handed to the distribution step is one of the
/// batch peaks.
proof fn lemma_unmatched_from_batch(
    b: Seq<Option<Peak>>,
    matches: Seq<Option<usize>>,
    j: nat,
    u: int,
)
    requires
        j <= b.len(),
        0 <= u < unmatched_from(b, matches, j).len(),
    ensures
        exists|j2: int|
            j <= j2 < b.len() && #[trigger] b[j2] == Some(unmatched_from(b, matches, j)[u]),
    decreases b.len() - j,
{
    if j < b.len() {
        let rest = unmatched_from(b, matches, j + 1);
        match b[j as int] {
            Some(p) => {
                if !batch_claimed(matches, j as int) {
                    if u == 0 {
                        assert(b[j as int] == Some(unmatched_from(b, matches, j)[u]));
                    } else {
                        lemma_unmatched_from_batch(b, matches, j + 1, u - 1);
                    }
                } else {
                    lemma_unmatched_from_batch(b, matches, j + 1, u);
                }
            },
            None => {
                lemma_unmatched_from_batch(b, matches, j + 1, u);
            },
        }
    }
}

/// Distribution only copies: a slot of the placed table holds either
/// what it held before or one of the distributed peaks.
proof fn lemma_place_all_source(t: Seq<Option<Peak>>, rest: Seq<Peak>, i: int)
    requires
        0 <= i < t.len(),
        place_all(t, rest)[i] is Some,
    ensures
        place_all(t, rest).len() == t.len(),
        t[i] == place_all(t, rest)[i] || exists|u: int|
            0 <= u < rest.len() && #[trigger] rest[u] == place_all(t, rest)[i].unwrap(),
    decreases rest.len(),
{
    if rest.len() > 0 {
        let t2 = place_first_empty(t, rest.first());
        lemma_first_empty_props(t, 0);
        lemma_place_all_source(t2, rest.drop_first(), i);
        if t2[i] == place_all(t, rest)[i] {
            if t[i] != t2[i] {
                assert(t2[i] == Some(rest.first()));
                assert(rest[0] == place_all(t, rest)[i].unwrap());
            }
        } else {
            let u: int = choose|u: int|
                0 <= u < rest.drop_first().len() && #[trigger] rest.drop_first()[u] == place_all(
                    t2,
                    rest.drop_first(),
                )[i].unwrap();
            assert(rest[u + 1] == place_all(t, rest)[i].unwrap());
        }
    }
}

/// The tracker never invents a partial: every peak in the updated table
/// is one of the batch peaks, in a matched slot or distributed into a
/// free one.
pub proof fn lemma_no_peak_invented(a: Seq<Option<Peak>>, b: Seq<Option<Peak>>, i: int)
    requires
        a.len() == b.len() == MAX_PEAKS,
        peaks_wf(a),
        peaks_wf(b),
        0 <= i < MAX_PEAKS,
        tracker_updated(a, b)[i] is Some,
    ensures
        exists|j: int| 0 <= j < b.len() && #[trigger] b[j] == tracker_updated(a, b)[i],
{
    let matches = matches_spec(a, b);
    lemma_greedy_matches_ok(
        a,
        b,
        repeated(false, a.len()),
        repeated(false, b.len()),
        repeated(None, a.len()),
        a.len(),
    );
    let moved = moved_table(b, matches);
    lemma_place_all_source(moved, unmatched_from(b, matches, 0), i);
    if moved[i] == tracker_updated(a, b)[i] {
        let j: int = matches[i].unwrap() as int;
        assert(b[j] == tracker_updated(a, b)[i]);
    } else {
        let u: int = choose|u: int|
            0 <= u < unmatched_from(b, matches, 0).len() && #[trigger] unmatched_from(
                b,
                matches,
                0,
            )[u] == place_all(moved, unmatched_from(b, matches, 0))[i].unwrap();
        lemma_unmatched_from_batch(b, matches, 0, u);
    }
}

/// The number of occupied slots at or after `k`.
pub open spec fn count_some(t: Seq<Option<Peak>>, k: nat) -> int
    decreases t.len() - k,
{
    if k >= t.len() {
        0
    } else {
        (if t[k as int] is Some {
            1int
        } else {
            0int
        }) + count_some(t, k + 1)
    }
}

/// The number of table slots at or after `k` that the matching filled.
pub open spec fn count_matched(m: Seq<Option<usize>>, k: nat) -> int
    decreases m.len() - k,
{
    if k >= m.len() {
        0
    } else {
        (if m[k as int] is Some {
            1int
        } else {
            0int
        }) + count_matched(m, k + 1)
    }
}

/// The number of batch slots in `[k, n)` that the matching claimed.
pub open spec fn count_claimed(m: Seq<Option<usize>>, n: nat, k: nat) -> int
    decreases n - k,
{
    if k >= n {
        0
    } else {
        (if batch_claimed(m, k as int) {
            1int
        } else {
            0int
        }) + count_claimed(m, n, k + 1)
    }
}

/// Occupied-slot counts are bounded by the table length.
proof fn lemma_count_some_bounds(t: Seq<Option<Peak>>, k: nat)
    requires
        k <= t.len(),
    ensures
        0 <= count_some(t, k) <= t.len() - k,
    decreases t.len() - k,
{
    if k < t.len() {
        lemma_count_some_bounds(t, k + 1);
    }
}

/// A full suffix has no empty slot; conversely a missing first empty
/// slot means the suffix is full.
proof fn lemma_first_empty_none_full(t: Seq<Option<Peak>>, k: nat)
    requires
        k <= t.len(),
        first_empty_from(t, k) is None,
    ensures
        count_some(t, k) == t.len() - k,
    decreases t.len() - k,
{
    if k < t.len() {
        lemma_first_empty_none_full(t, k + 1);
    }
}

/// Filling one empty slot raises the occupied count by one.
proof fn lemma_count_some_update(t: Seq<Option<Peak>>, s: int, p: Peak, k: nat)
    requires
        k <= t.len(),
        0 <= s < t.len(),
        t[s] is None,
    ensures
        count_some(t.update(s, Some(p)), k) == count_some(t, k) + (if k <= s {
            1int
        } else {
            0int
        }),
    decreases t.len() - k,
{
    if k < t.len() {
        lemma_count_some_update(t, s, p, k + 1);
    }
}

/// A matched table slot holds a peak moved from the batch; an
/// unmatched one is empty, so the moved table has exactly as many
/// occupied slots as the matching made assignments.
proof fn lemma_count_moved(b: Seq<Option<Peak>>, m: Seq<Option<usize>>, k: nat)
    requires
        k <= m.len(),
        b.len() == m.len(),
        forall|i: int|
            0 <= i < m.len() ==> (#[trigger] m[i] matches Some(j) ==> j < b.len() && b[j as int]
                is Some),
    ensures
        count_some(moved_table(b, m), k) == count_matched(m, k),
    decreases m.len() - k,
{
    if k < m.len() {
        lemma_count_moved(b, m, k + 1);
    }
}

/// Splitting the occupied batch slots by whether the matching claimed
/// them: the unmatched leftovers and the claimed slots together account
/// for every occupied slot.
proof fn lemma_count_unmatched_split(b: Seq<Option<Peak>>, m: Seq<Option<usize>>, k: nat)
    requires
        k <= b.len(),
        forall|j: int| 0 <= j < b.len() && #[trigger] batch_claimed(m, j) ==> b[j] is Some,
    ensures
        unmatched_from(b, m, k).len() + count_claimed(m, b.len(), k) == count_some(b, k),
    decreases b.len() - k,
{
    if k < b.len() {
        lemma_count_unmatched_split(b, m, k + 1);
    }
}

/// An occupied, unclaimed batch slot shows up among the leftovers.
proof fn lemma_unmatched_membership(b: Seq<Option<Peak>>, m: Seq<Option<usize>>, k: nat, j: int)
    requires
        k <= j < b.len(),
        b[j] is Some,
        !batch_claimed(m, j),
    ensures
        exists|u: int|
            0 <= u < unmatched_from(b, m, k).len() && Some(
                #[trigger] unmatched_from(b, m, k)[u],
            ) == b[j],
    decreases b.len() - k,
{
    let s = unmatched_from(b, m, k);
    if k == j {
        assert(Some(s[0]) == b[j]);
    } else {
        lemma_unmatched_membership(b, m, k + 1, j);
        let rest = unmatched_from(b, m, k + 1);
        let u: int = choose|u: int| 0 <= u < rest.len() && Some(#[trigger] rest[u]) == b[j];
        match b[k as int] {
            Some(p) => {
                if !batch_claimed(m, k as int) {
                    assert(Some(s[u + 1]) == b[j]);
                } else {
                    assert(Some(s[u]) == b[j]);
                }
            },
            None => {
                assert(Some(s[u]) == b[j]);
            },
        }
    }
}

/// Accepting a pair onto an unfilled table slot raises the assignment
/// count by one.
proof fn lemma_count_matched_update(m: Seq<Option<usize>>, i: int, j: usize, k: nat)
    requires
        k <= m.len(),
        0 <= i < m.len(),
        m[i] is None,
    ensures
        count_matched(m.update(i, Some(j)), k) == count_matched(m, k) + (if k <= i {
            1int
        } else {
            0int
        }),
    decreases m.len() - k,
{
    if k < m.len() {
        lemma_count_matched_update(m, i, j, k + 1);
    }
}

/// Accepting a pair whose batch slot was unclaimed raises the claimed
/// count by one: only that batch slot changes state.
proof fn lemma_count_claimed_update(m: Seq<Option<usize>>, i: int, j: usize, n: nat, k: nat)
    requires
        k <= n,
        n <= MAX_PEAKS,
        0 <= i < m.len(),
        m[i] is None,
        j < n,
        !batch_claimed(m, j as int),
    ensures
        count_claimed(m.update(i, Some(j)), n, k) == count_claimed(m, n, k) + (if k <= j as int {
            1int
        } else {
            0int
        }),
    decreases n - k,
{
    let m2 = m.update(i, Some(j));
    if k < n {
        lemma_count_claimed_update(m, i, j, n, k + 1);
        assert(batch_claimed(m2, k as int) == (batch_claimed(m, k as int) || k as int == j as int))
            by {
            if batch_claimed(m, k as int) {
                let i2: int = choose|i2: int|
                    0 <= i2 < m.len() && #[trigger] m[i2] == Some(k as usize);
                assert(m2[i2] == Some(k as usize));
            }
            if k as int == j as int {
                assert(m2[i] == Some(k as usize));
            }
            if batch_claimed(m2, k as int) && k as int != j as int {
                let i2: int = choose|i2: int|
                    0 <= i2 < m2.len() && #[trigger] m2[i2] == Some(k as usize);
                assert(i2 != i);
                assert(m[i2] == Some(k as usize));
            }
        };
    }
}

/// Through the whole greedy matching, filled table slots and claimed
/// batch slots stay in one-to-one step: the matching claims exactly one
/// fresh batch slot for each assignment it makes.
proof fn lemma_greedy_counts(
    d: Seq<Option<FrequencyDistance>>,
    ta: Seq<bool>,
    tb: Seq<bool>,
    m: Seq<Option<usize>>,
    fuel: nat,
)
    requires
        dists_wf(d, MAX_PEAKS as int),
        ta.len() == MAX_PEAKS,
        tb.len() == MAX_PEAKS,
        m.len() == MAX_PEAKS,
        forall|i: int| 0 <= i < m.len() && #[trigger] m[i] is Some ==> ta[i],
        forall|i: int|
            0 <= i < m.len() ==> (#[trigger] m[i] matches Some(j) ==> j < MAX_PEAKS && tb[j as int]),
        count_matched(m, 0) == count_claimed(m, MAX_PEAKS as nat, 0),
    ensures
        count_matched(greedy_rec(d, ta, tb, m, fuel), 0) == count_claimed(
            greedy_rec(d, ta, tb, m, fuel),
            MAX_PEAKS as nat,
            0,
        ),
    decreases fuel,
{
    if fuel > 0 {
        match best_pair_upto(d, ta, tb, d.len()) {
            None => {},
            Some(fd) => {
                lemma_best_pair_props(d, ta, tb, d.len());
                let idx: int = choose|idx: int|
                    0 <= idx < d.len() && #[trigger] eligible(d, ta, tb, idx) && d[idx] == Some(
                        fd,
                    );
                assert(fd.a < MAX_PEAKS && fd.b < MAX_PEAKS);
                assert(m[fd.a as int] is None);
                assert(!batch_claimed(m, fd.b as int)) by {
                    if batch_claimed(m, fd.b as int) {
                        let i2: int = choose|i2: int|
                            0 <= i2 < m.len() && #[trigger] m[i2] == Some(fd.b);
                        assert(tb[fd.b as int]);
                    }
                };
                lemma_count_matched_update(m, fd.a as int, fd.b, 0);
                lemma_count_claimed_update(m, fd.a as int, fd.b, MAX_PEAKS as nat, 0);
                let m2 = m.update(fd.a as int, Some(fd.b));
                let ta2 = ta.update(fd.a as int, true);
                let tb2 = tb.update(fd.b as int, true);
                assert forall|i: int| 0 <= i < m2.len() && #[trigger] m2[i] is Some implies ta2[i] by {
                    if i != fd.a as int {
                        assert(m2[i] == m[i]);
                    }
                };
                assert forall|i: int| 0 <= i < m2.len() implies (#[trigger] m2[i] matches Some(j)
                    ==> j < MAX_PEAKS && tb2[j as int]) by {
                    if i != fd.a as int {
                        assert(m2[i] == m[i]);
                    }
                };
                lemma_greedy_counts(d, ta2, tb2, m2, (fuel - 1) as nat);
            },
        }
    }
}

/// With enough empty slots, every distributed peak finds a slot.
proof fn lemma_place_all_places(t: Seq<Option<Peak>>, rest: Seq<Peak>, u: int)
    requires
        count_some(t, 0) + rest.len() <= t.len(),
        0 <= u < rest.len(),
    ensures
        place_all(t, rest).len() == t.len(),
        exists|i: int|
            0 <= i < t.len() && #[trigger] place_all(t, rest)[i] == Some(rest[u]),
    decreases rest.len(),
{
    lemma_count_some_bounds(t, 0);
    assert(first_empty_from(t, 0) is Some) by {
        if first_empty_from(t, 0) is None {
            lemma_first_empty_none_full(t, 0);
        }
    };
    let s: int = first_empty_from(t, 0).unwrap();
    lemma_first_empty_props(t, 0);
    let t2 = t.update(s, Some(rest.first()));
    lemma_count_some_update(t, s, rest.first(), 0);
    assert(place_all(t, rest) == place_all(t2, rest.drop_first()));
    if u == 0 {
        lemma_place_all_preserves(t2, rest.drop_first(), s);
        assert(place_all(t, rest)[s] == Some(rest[0]));
    } else {
        lemma_place_all_places(t2, rest.drop_first(), u - 1);
        let i2: int = choose|i2: int|
            0 <= i2 < t2.len() && #[trigger] place_all(t2, rest.drop_first())[i2] == Some(
                rest.drop_first()[u - 1],
            );
        assert(rest.drop_first()[u - 1] == rest[u]);
        assert(place_all(t, rest)[i2] == Some(rest[u]));
    }
}

/// An unfilled matching has no assignments.
proof fn lemma_count_matched_none(m: Seq<Option<usize>>, k: nat)
    requires
        k <= m.len(),
        forall|i: int| 0 <= i < m.len() ==> #[trigger] m[i] is None,
    ensures
        count_matched(m, k) == 0,
    decreases m.len() - k,
{
    if k < m.len() {
        lemma_count_matched_none(m, k + 1);
    }
}

/// An unfilled matching claims no batch slot.
proof fn lemma_count_claimed_none(m: Seq<Option<usize>>, n: nat, k: nat)
    requires
        k <= n,
        forall|i: int| 0 <= i < m.len() ==> #[trigger] m[i] is None,
    ensures
        count_claimed(m, n, k) == 0,
    decreases n - k,
{
    if k < n {
        lemma_count_claimed_none(m, n, k + 1);
        if batch_claimed(m, k as int) {
            let i2: int = choose|i2: int|
                0 <= i2 < m.len() && #[trigger] m[i2] == Some(k as usize);
        }
    }
}
/// Peaks are never dropped: every occupied batch slot lands somewhere
/// in the updated table — matched onto its continuing slot, or
/// distributed into a slot left free, which the fixed equal sizes of
/// batch and table always provide.
pub proof fn lemma_no_peak_dropped(a: Seq<Option<Peak>>, b: Seq<Option<Peak>>, j: int)
    requires
        a.len() == b.len() == MAX_PEAKS,
        peaks_wf(a),
        peaks_wf(b),
        0 <= j < MAX_PEAKS,
        b[j] is Some,
    ensures
        exists|i: int|
            0 <= i < MAX_PEAKS && #[trigger] tracker_updated(a, b)[i] == b[j],
{
    let matches = matches_spec(a, b);
    lemma_greedy_matches_ok(
        a,
        b,
        repeated(false, a.len()),
        repeated(false, b.len()),
        repeated(None, a.len()),
        a.len(),
    );
    let moved = moved_table(b, matches);
    let rest = unmatched_from(b, matches, 0);
    if batch_claimed(matches, j) {
        let i: int = choose|i: int|
            0 <= i < matches.len() && #[trigger] matches[i] == Some(j as usize);
        lemma_matched_slot_preserved(a, b, i);
        assert(tracker_updated(a, b)[i] == b[j]);
    } else {
        // Count the slots: the matching fills exactly as many table
        // slots as it claims batch slots, so the leftovers fit into
        // the slots still empty.
        let d = distance_matrix(a, b);
        assert forall|k2: int| 0 <= k2 < d.len() implies (#[trigger] d[k2] matches Some(fd)
            ==> fd.a < MAX_PEAKS && fd.b < MAX_PEAKS && fd.distance >= 0) by {
            if d[k2] is Some {
                vstd::arithmetic::div_mod::lemma_mod_bound(k2, MAX_PEAKS as int);
                vstd::arithmetic::div_mod::lemma_div_pos_is_pos(k2, MAX_PEAKS as int);
                vstd::arithmetic::div_mod::lemma_multiply_divide_lt(
                    k2,
                    MAX_PEAKS as int,
                    MAX_PEAKS as int,
                );
            }
        };
        assert(count_matched(repeated(None::<usize>, MAX_PEAKS as nat), 0) == 0) by {
            lemma_count_matched_none(repeated(None::<usize>, MAX_PEAKS as nat), 0);
        };
        assert(count_claimed(repeated(None::<usize>, MAX_PEAKS as nat), MAX_PEAKS as nat, 0)
            == 0) by {
            lemma_count_claimed_none(repeated(None::<usize>, MAX_PEAKS as nat), MAX_PEAKS as nat, 0);
        };
        lemma_greedy_counts(
            d,
            repeated(false, a.len()),
            repeated(false, b.len()),
            repeated(None, a.len()),
            a.len(),
        );
        lemma_count_moved(b, matches, 0);
        assert forall|j2: int| 0 <= j2 < b.len() && #[trigger] batch_claimed(matches, j2)
            implies b[j2] is Some by {
            let i2: int = choose|i2: int|
                0 <= i2 < matches.len() && #[trigger] matches[i2] == Some(j2 as usize);
        };
        lemma_count_unmatched_split(b, matches, 0);
        lemma_count_some_bounds(b, 0);
        assert(count_some(moved, 0) + rest.len() <= MAX_PEAKS);
        lemma_unmatched_membership(b, matches, 0, j);
        let u: int = choose|u: int|
            0 <= u < rest.len() && Some(#[trigger] rest[u]) == b[j];
        lemma_place_all_places(moved, rest, u);
        let i2: int = choose|i2: int|
            0 <= i2 < moved.len() && #[trigger] place_all(moved, rest)[i2] == Some(rest[u]);
        assert(tracker_updated(a, b) == place_all(moved, rest));
        assert(tracker_updated(a, b)[i2] == b[j]);
    }
}


} // verus!
