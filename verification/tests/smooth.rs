use reconstructor::fixed::SCALE;
use reconstructor::smooth::SmoothedValue;

const S: f64 = 4294967296.0;

fn fl(x: i64) -> f64 {
    x as f64 / S
}

#[test]
fn test_smoothed_value() {
    let mut smoothed_value = SmoothedValue::new(0, 4);
    assert!((fl(smoothed_value.next()) - 0.0).abs() < f32::EPSILON as f64);
    smoothed_value.set_target(SCALE);
    assert!((fl(smoothed_value.next()) - 0.25).abs() < f32::EPSILON as f64);
    assert!((fl(smoothed_value.next()) - 0.5).abs() < f32::EPSILON as f64);
    assert!((fl(smoothed_value.next()) - 0.75).abs() < f32::EPSILON as f64);
    assert!((fl(smoothed_value.next()) - 1.0).abs() < f32::EPSILON as f64);
}

#[test]
fn test_retarget_mid_ramp() {
    // Re-targeting restarts the ramp from the current value without a
    // discontinuity.
    let mut sv = SmoothedValue::new(0, 4);
    sv.set_target(4 * SCALE);
    assert_eq!(sv.next(), SCALE);
    sv.set_target(0);
    assert_eq!(sv.next(), SCALE - SCALE / 4);
    assert_eq!(sv.next(), SCALE / 2);
    assert_eq!(sv.next(), SCALE / 4);
    assert_eq!(sv.next(), 0);
}
