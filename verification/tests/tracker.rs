use reconstructor::peak::{Peak, MAX_PEAKS};
use reconstructor::tracker::{calculate_peak_distances, FrequencyDistance, PeakTracker};

const S: f64 = 4294967296.0;

fn fx(x: f64) -> i64 {
    (x * S).round() as i64
}

fn slots(present: &[(usize, f64, f64)]) -> Vec<Option<Peak>> {
    let mut v: Vec<Option<Peak>> = vec![None; MAX_PEAKS];
    for &(slot, freq, amp) in present {
        v[slot] = Some(Peak { frequency: fx(freq), amplitude: fx(amp) });
    }
    v
}

#[test]
fn test_calculate_peak_distances() {
    let a = [
        Some(Peak { frequency: fx(20.0), amplitude: fx(1.0) }),
        Some(Peak { frequency: fx(30.0), amplitude: fx(1.0) }),
    ];
    let b = [
        Some(Peak { frequency: fx(21.0), amplitude: fx(1.0) }),
        Some(Peak { frequency: fx(25.0), amplitude: fx(1.0) }),
    ];
    let mut result: Vec<Option<FrequencyDistance>> = vec![None; 4];
    calculate_peak_distances(&a, &b, &mut result);
    let expected_result: Vec<Option<FrequencyDistance>> = [
        (0usize, 0usize, 1.0f64),
        (0, 1, 5.0),
        (1, 0, 9.0),
        (1, 1, 5.0),
    ]
        .into_iter()
        .map(|(a, b, distance)| Some(FrequencyDistance { a, b, distance: fx(distance) }))
        .collect();
    assert_eq!(result.as_slice(), expected_result.as_slice());
}

#[test]
fn sort_peak_distances() {
    let mut distances = [(0, 1, 5.0), (0, 0, 1.0), (1, 0, 9.0), (1, 1, 5.0)];
    distances.sort_unstable_by(|a, b| a.2.partial_cmp(&b.2).unwrap());
    let expected_sorting = [(0, 0, 1.0), (0, 1, 5.0), (1, 1, 5.0), (1, 0, 9.0)];
    assert_eq!(distances, expected_sorting);
}

#[test]
fn test_tracker_keeps_slot_identity() {
    // A table slot holding a peak near 440 Hz must be matched by a new
    // 441 Hz peak (distance 1 Hz), while a 10 kHz peak far beyond the
    // matching threshold takes over an empty slot instead of displacing
    // the match.
    let mut tracker = PeakTracker::new();
    tracker.update_peaks(&slots(&[(0, 440.0, 1.0)]));
    assert_eq!(tracker.latest()[0], Some(Peak { frequency: fx(440.0), amplitude: fx(1.0) }));

    let batch = slots(&[(0, 10000.0, 0.5), (1, 441.0, 0.9)]);
    tracker.update_peaks(&batch);
    let table = tracker.latest();
    assert_eq!(table[0], Some(Peak { frequency: fx(441.0), amplitude: fx(0.9) }));
    assert_eq!(table[1], Some(Peak { frequency: fx(10000.0), amplitude: fx(0.5) }));
    for slot in 2..MAX_PEAKS {
        assert!(table[slot].is_none());
    }
}

#[test]
fn test_tracker_drops_vanished_peaks() {
    // Slots whose peak finds no successor in the new batch become
    // empty again.
    let mut tracker = PeakTracker::new();
    tracker.update_peaks(&slots(&[(0, 440.0, 1.0), (1, 880.0, 0.5)]));
    tracker.update_peaks(&slots(&[(0, 880.5, 0.4)]));
    let table = tracker.latest();
    assert!(table[0].is_none());
    assert_eq!(table[1], Some(Peak { frequency: fx(880.5), amplitude: fx(0.4) }));
}

#[test]
fn test_tracker_prefers_nearest_pair() {
    // With two table peaks and one batch peak between them, the batch
    // peak lands on the closer slot.
    let mut tracker = PeakTracker::new();
    tracker.update_peaks(&slots(&[(0, 400.0, 1.0), (1, 500.0, 1.0)]));
    tracker.update_peaks(&slots(&[(0, 480.0, 0.7)]));
    let table = tracker.latest();
    assert!(table[0].is_none());
    assert_eq!(table[1], Some(Peak { frequency: fx(480.0), amplitude: fx(0.7) }));
}

#[test]
fn test_equal_distance_ties_prefer_lower_slot() {
    // The deterministic tie policy: a batch peak equidistant from two
    // occupied slots is matched onto the lower slot.
    let mut tracker = PeakTracker::new();
    tracker.update_peaks(&slots(&[(0, 400.0, 1.0), (1, 500.0, 1.0)]));
    tracker.update_peaks(&slots(&[(0, 450.0, 0.7)]));
    let table = tracker.latest();
    assert_eq!(table[0], Some(Peak { frequency: fx(450.0), amplitude: fx(0.7) }));
    assert!(table[1].is_none());
}
