use realfft::RealFftPlanner;
use reconstructor::analyzer::PeakAnalyzer;
use reconstructor::fixed::{SAT, SCALE};
use reconstructor::peak::Peak;
use reconstructor::tracker::PeakTracker;
use reconstructor::utils::build_sample;
use reconstructor::window::apply_hanning_window;

const S: f64 = 4294967296.0;

fn fx(x: f64) -> i64 {
    (x * S).round() as i64
}

fn fl(x: i64) -> f64 {
    x as f64 / S
}

/// Window the 512-sample frame, zero-pad to 1024, run the forward real
/// FFT and hand the engine the 513 bin magnitudes in Q32.32.
fn magnitudes(frame: &[i64]) -> Vec<i64> {
    assert_eq!(frame.len(), 512);
    let windowed = apply_hanning_window(frame);
    let mut planner = RealFftPlanner::<f64>::new();
    let plan = planner.plan_fft_forward(1024);
    let mut input = plan.make_input_vec();
    let mut output = plan.make_output_vec();
    for (x, y) in windowed.iter().zip(input.iter_mut()) {
        *y = fl(*x);
    }
    let _ = plan.process(&mut input, &mut output);
    output
        .iter()
        .map(|c| {
            let m = (c.norm() * S).round();
            if m < 0.0 {
                0
            } else if m > SAT as f64 {
                SAT
            } else {
                m as i64
            }
        })
        .collect()
}

fn partials_sample(f1: f64, a1: f64, f2: f64, a2: f64, f3: f64, a3: f64) -> Vec<i64> {
    build_sample(
        &[(fx(f1), fx(a1), 0), (fx(f2), fx(a2), 0), (fx(f3), fx(a3), 0)],
        512,
        48000,
    )
}

#[test]
fn test_get_raw_peaks() {
    let sample = partials_sample(440.0, 1.0, 1000.0, 0.5, 100.0, 0.0);
    let analyzer = PeakAnalyzer::new(48000);
    let peaks_a = analyzer.get_raw_peaks(&magnitudes(&sample));
    assert_eq!(peaks_a.len(), 20);
    let first = peaks_a[0].expect("strongest partial missing");
    let second = peaks_a[1].expect("second partial missing");
    assert!((fl(first.frequency) - 439.69).abs() < 0.5);
    assert!((fl(second.frequency) - 998.85).abs() < 0.5);
    // Slots are ordered by descending magnitude.
    assert!(first.amplitude >= second.amplitude);
    for slot in 2..20 {
        assert!(peaks_a[slot].is_none());
    }
}

#[test]
fn test_apply_hanning() {
    let frame = [2 * SCALE; 5];
    let windowed = apply_hanning_window(&frame);
    let expected = [0.0, 1.0, 2.0, 1.0, 0.0];
    for (expected, actual) in expected.iter().zip(windowed.iter()) {
        assert!((*expected - fl(*actual)).abs() < f32::EPSILON as f64);
    }
}

#[test]
fn test_draw_tracks() {
    let sample_a = partials_sample(440.0, 1.0, 1000.0, 0.5, 100.0, 0.0);
    let analyzer = PeakAnalyzer::new(48000);
    let peaks_a = analyzer.get_raw_peaks(&magnitudes(&sample_a));
    let mut peak_tracker = PeakTracker::new();
    peak_tracker.update_peaks(&peaks_a);
    println!("PEAKS A: {:?}", peak_tracker.latest());
    let sample_b = partials_sample(450.0, 0.8, 1100.0, 0.5, 150.0, 1.0);
    let mut peaks_b = analyzer.get_raw_peaks(&magnitudes(&sample_b));
    peaks_b.reverse();
    peak_tracker.update_peaks(&peaks_b);
    println!("PEAKS B: {:?}", peak_tracker.latest());
    let sample_c = partials_sample(430.0, 0.8, 1150.0, 0.5, 180.0, 0.5);
    let mut peaks_c = analyzer.get_raw_peaks(&magnitudes(&sample_c));
    peaks_c.reverse();
    peak_tracker.update_peaks(&peaks_c);
    println!("PEAKS C: {:?}", peak_tracker.latest());

    let sample_d = partials_sample(430.0, 0.0, 1150.0, 0.0, 180.0, 0.0);
    let mut peaks_d = analyzer.get_raw_peaks(&magnitudes(&sample_d));
    peaks_d.reverse();
    peak_tracker.update_peaks(&peaks_d);
    println!("PEAKS D: {:?}", peak_tracker.latest());
}

#[test]
fn test_silence_yields_no_peaks() {
    let analyzer = PeakAnalyzer::new(48000);
    let silence = vec![0i64; 512];
    let peaks: Vec<Option<Peak>> = analyzer.get_raw_peaks(&magnitudes(&silence));
    assert!(peaks.iter().all(|p| p.is_none()));
}

#[test]
fn test_equal_magnitude_ties_prefer_lower_bin() {
    // The deterministic tie policy: among candidates of equal
    // magnitude, the lower bin fills the earlier slot.
    let analyzer = PeakAnalyzer::new(48000);
    let mut mags = vec![0i64; 513];
    mags[10] = fx(10.0);
    mags[100] = fx(10.0);
    let peaks = analyzer.get_raw_peaks(&mags);
    let first = peaks[0].unwrap();
    let second = peaks[1].unwrap();
    assert!(first.frequency < second.frequency);
    assert!(peaks[2].is_none());
}
