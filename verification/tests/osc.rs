use reconstructor::osc::SinOsc;
use reconstructor::smooth::SmoothedValue;
use reconstructor::trig::{exp2_fx, sin_fx, PI_FX, QUARTER, TAU};
use reconstructor::fixed::SCALE;

const S: f64 = 4294967296.0;

fn fx(x: f64) -> i64 {
    (x * S).round() as i64
}

fn fl(x: i64) -> f64 {
    x as f64 / S
}

#[test]
fn test_osc() {
    let mut osc = SinOsc::new(PI_FX / 4, SCALE, 0);
    assert!(fl(osc.next()).abs() < 0.0001);
    assert!((fl(osc.next()) - std::f64::consts::FRAC_1_SQRT_2).abs() < 0.0001);
    assert!((fl(osc.next()) - 1.0).abs() < 0.0001);
    assert!((fl(osc.next()) - std::f64::consts::FRAC_1_SQRT_2).abs() < 0.0001);
    assert!((fl(osc.next()) - 0.0).abs() < 0.0001);
    assert!((fl(osc.next()) - -std::f64::consts::FRAC_1_SQRT_2).abs() < 0.0001);
    assert!((fl(osc.next()) - -1.0).abs() < 0.0001);

    osc.set_frequency_hz(fx(20.0), 48000);
    assert!((fl(osc.frequency) - 0.002618).abs() < 0.00001);
    osc.set_frequency_hz(fx(24000.0), 48000);
    assert!((fl(osc.frequency) - std::f64::consts::PI).abs() < 0.00001);
    osc.set_frequency_hz(fx(12000.0), 48000);
    assert!((fl(osc.frequency) - std::f64::consts::PI / 2.0).abs() < 0.00001);
}

#[test]
fn test_lowpass_rolloff() {
    let mut osc = SinOsc::new(0, SCALE, 0);
    // Below the 18 kHz knee the anti-aliasing gain is one.
    osc.set_frequency_hz(fx(1000.0), 48000);
    assert_eq!(osc.lowpass_amp, SCALE);
    // At 20 kHz the gain is 5.5 - 20000/4000 = 0.5.
    osc.set_frequency_hz(fx(20000.0), 48000);
    assert!((fl(osc.lowpass_amp) - 0.5).abs() < 1e-6);
    // At 22 kHz and above it reaches zero.
    osc.set_frequency_hz(fx(23000.0), 48000);
    assert_eq!(osc.lowpass_amp, 0);
}

#[test]
fn test_sine_accuracy() {
    // The fixed-point sine against the analytic sine over a whole turn.
    let mut k: i64 = 0;
    while k < 64 {
        let phase: i64 = (TAU / 64) * k;
        let got = fl(sin_fx(phase));
        let want = (fl(phase)).sin();
        assert!((got - want).abs() < 1e-4);
        k += 1;
    }
    assert_eq!(sin_fx(QUARTER), SCALE);
    assert_eq!(sin_fx(0), 0);
}

#[test]
fn test_exp2_accuracy() {
    assert_eq!(exp2_fx(0), SCALE);
    let cases = [-2.0, -1.0, -0.5, 0.25, 1.0, 2.0, 5.0];
    for &x in cases.iter() {
        let got = fl(exp2_fx(fx(x)));
        let want = 2f64.powf(x);
        assert!((got - want).abs() < want * 1e-5 + 1e-6);
    }
}

#[test]
fn test_smoother_reaches_target_exactly() {
    // The ramp law on concrete values: after the full ramp length the
    // value equals the target exactly, even for awkward divisions.
    let mut sv = SmoothedValue::new(fx(0.3), 7);
    sv.set_target(fx(-1.25));
    let mut last: i64 = 0;
    for _ in 0..7 {
        last = sv.next();
    }
    assert_eq!(last, fx(-1.25));
    // Further steps leave it unchanged.
    assert_eq!(sv.next(), fx(-1.25));
}
