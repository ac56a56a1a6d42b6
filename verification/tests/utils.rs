use reconstructor::fixed::SCALE;
use reconstructor::utils::{build_sample, floor_to_power_of_2, frequency_per_bin, ilog2};

const S: f64 = 4294967296.0;

fn fx(x: f64) -> i64 {
    (x * S).round() as i64
}

fn fl(x: i64) -> f64 {
    x as f64 / S
}

#[test]
fn test_frequency_per_bin() {
    let fperbin = frequency_per_bin(48000, 10);
    assert_eq!(fperbin, 2400 * SCALE);
}

#[test]
fn test_ilog2() {
    assert_eq!(ilog2(0), None);
    assert_eq!(ilog2(1), Some(0));
    assert_eq!(ilog2(3), Some(1));
    assert_eq!(ilog2(6), Some(2));
    assert_eq!(ilog2(8), Some(3));
    assert_eq!(ilog2(17), Some(4));
}

#[test]
fn test_floor_to_power_of_2() {
    assert_eq!(floor_to_power_of_2(0), None);
    assert_eq!(floor_to_power_of_2(1), Some(1));
    assert_eq!(floor_to_power_of_2(3), Some(2));
    assert_eq!(floor_to_power_of_2(1023), Some(512));
    assert_eq!(floor_to_power_of_2(1025), Some(1024));
}

#[test]
fn test_build_sample() {
    let partials = [(fx(2.0), fx(1.0), 0i64)];
    let sample = build_sample(&partials, 8, 8);
    let expected_sample = [0.0, 1.0, 0.0, -1.0];
    for (item, expected) in sample.iter().zip(expected_sample.iter()) {
        let diff = (fl(*item) - *expected).abs();
        assert!(diff < 0.001);
    }
}
