use reconstructor::fixed::SCALE;
use reconstructor::reconstructor::Reconstructor;
use reconstructor::synth::{Event, EventData, Synth};
use reconstructor::voice::Voice;

const S: f64 = 4294967296.0;

fn fx(x: f64) -> i64 {
    (x * S).round() as i64
}

fn fl(x: i64) -> f64 {
    x as f64 / S
}

fn fresh_synth() -> Synth {
    let mut voices: Vec<Voice> = Vec::new();
    for _ in 0..8 {
        voices.push(Voice::new(48000));
    }
    Synth { voices }
}

fn held_notes(synth: &Synth) -> Vec<u8> {
    synth
        .get_voices()
        .iter()
        .filter_map(|v| v.note.map(|n| n.note_number))
        .collect()
}

#[test]
fn test_allocate_note_no_retrigger() {
    let mut synth = fresh_synth();
    synth.allocate_note(60, 127);
    synth.allocate_note(60, 127);
    assert_eq!(held_notes(&synth), vec![60]);
}

#[test]
fn test_deallocate_unheld_note_is_noop() {
    let mut synth = fresh_synth();
    synth.allocate_note(60, 127);
    let before = held_notes(&synth);
    synth.deallocate_note(99);
    assert_eq!(held_notes(&synth), before);
}

#[test]
fn test_allocate_beyond_pool_drops_excess() {
    let mut synth = fresh_synth();
    for note in 40..48u8 {
        synth.allocate_note(note, 127);
    }
    synth.allocate_note(99, 127);
    let held = held_notes(&synth);
    assert_eq!(held.len(), 8);
    assert!(!held.contains(&99));
}

#[test]
fn test_deallocate_releases_every_holder() {
    let mut synth = fresh_synth();
    synth.allocate_note(72, 127);
    synth.deallocate_note(72);
    assert!(held_notes(&synth).is_empty());
}

#[test]
fn test_event_offsets_allocate_sample_accurately() {
    let mut synth = fresh_synth();
    let mut output = vec![0i64; 64];
    let events = [
        Event { offset: 16, data: EventData::NoteOn { note_number: 69, velocity: 127 } },
        Event { offset: 48, data: EventData::NoteOff { note_number: 69 } },
    ];
    synth.render_block(&mut output, &events);
    // The note-off released the voice again.
    assert!(held_notes(&synth).is_empty());
    assert_eq!(output.len(), 64);
}

#[test]
fn test_transpose_clamps_to_octave_range() {
    let mut rec = Reconstructor::new(48000);
    rec.set_transpose(fx(1.0));
    assert!((fl(rec.transpose) - 2.0).abs() < 1e-4);
    rec.set_transpose(fx(5.0));
    assert!((fl(rec.transpose) - 4.0).abs() < 1e-4);
    rec.set_transpose(fx(-5.0));
    assert!((fl(rec.transpose) - 0.25).abs() < 1e-4);
}

#[test]
fn test_detune_clamps_to_unit_range() {
    let mut rec = Reconstructor::new(48000);
    rec.set_detune(fx(0.5));
    assert_eq!(rec.detune, fx(0.5));
    rec.set_detune(fx(2.0));
    assert_eq!(rec.detune, SCALE);
    rec.set_detune(fx(-1.0));
    assert_eq!(rec.detune, 0);
}

#[test]
fn test_analysis_window_shape() {
    let mut rec = Reconstructor::new(48000);
    let input: Vec<i64> = (0..512).map(|_| fx(0.25)).collect();
    rec.write_input(&input);
    let frame = rec.analysis_window();
    assert_eq!(frame.len(), 1024);
    // The Hann window zeroes the frame's first sample; the zero padding
    // fills the second half.
    assert_eq!(frame[0], 0);
    for k in 512..1024 {
        assert_eq!(frame[k], 0);
    }
    // The middle of the window passes the signal through at full gain.
    assert!((fl(frame[256]) - 0.25).abs() < 1e-4);
}

#[test]
fn test_silence_decays_to_exact_silence() {
    // Excite the default voice with a synthetic spectral peak, then
    // feed silence: after the ring buffer has cycled and the amplitude
    // ramps (64 samples) have run out, the output is exactly zero.
    let mut rec = Reconstructor::new(48000);
    let mut mags = vec![0i64; 513];
    mags[10] = fx(100.0);
    mags[9] = fx(50.0);
    mags[11] = fx(50.0);
    let silence = vec![0i64; 512];
    rec.write_input(&silence);
    let mut out = vec![0i64; 512];
    rec.run(&mags, &mut out, &[]);
    assert!(out.iter().any(|&x| x != 0));

    let zero_mags = vec![0i64; 513];
    for _ in 0..3 {
        rec.write_input(&silence);
        let mut out2 = vec![0i64; 512];
        rec.run(&zero_mags, &mut out2, &[]);
    }
    rec.write_input(&silence);
    let mut out3 = vec![0i64; 512];
    rec.run(&zero_mags, &mut out3, &[]);
    assert!(out3.iter().all(|&x| x == 0));
}

#[test]
fn test_freeze_holds_the_spectrum() {
    // With freeze on, an empty analysis no longer pulls the amplitude
    // targets to zero, so the voice keeps sounding.
    let mut rec = Reconstructor::new(48000);
    let mut mags = vec![0i64; 513];
    mags[10] = fx(100.0);
    mags[9] = fx(50.0);
    mags[11] = fx(50.0);
    let silence = vec![0i64; 512];
    rec.write_input(&silence);
    let mut out = vec![0i64; 512];
    rec.run(&mags, &mut out, &[]);
    rec.set_freeze(true);
    let zero_mags = vec![0i64; 513];
    for _ in 0..3 {
        rec.write_input(&silence);
        let mut out2 = vec![0i64; 512];
        rec.run(&zero_mags, &mut out2, &[]);
    }
    let mut out3 = vec![0i64; 512];
    rec.write_input(&silence);
    rec.run(&zero_mags, &mut out3, &[]);
    assert!(out3.iter().any(|&x| x != 0));
}

#[test]
fn test_voice_random_spread_is_bounded() {
    let v = Voice::new(48000);
    assert_eq!(v.oscillators.len(), 20);
    for unit in v.oscillators.iter() {
        assert!(-SCALE <= unit.smoothers.random.value);
        assert!(unit.smoothers.random.value <= SCALE);
    }
}

#[test]
fn test_synth_mode_renders_held_note() {
    let mut rec = Reconstructor::new(48000);
    rec.set_synth_mode(true);
    let mut mags = vec![0i64; 513];
    mags[10] = fx(100.0);
    mags[9] = fx(50.0);
    mags[11] = fx(50.0);
    let silence = vec![0i64; 512];
    let events = [Event { offset: 0, data: EventData::NoteOn { note_number: 72, velocity: 127 } }];
    rec.write_input(&silence);
    let mut out = vec![0i64; 512];
    rec.run(&mags, &mut out, &events);
    assert!(out.iter().any(|&x| x != 0));
    assert!(rec.synth.get_voices().iter().any(|v| v.note.map(|n| n.note_number) == Some(72)));

    // Without any held note, a synth-mode engine renders exact silence:
    // every free voice contributes at amplitude zero.
    let mut rec2 = Reconstructor::new(48000);
    rec2.set_synth_mode(true);
    rec2.write_input(&silence);
    let mut out2 = vec![0i64; 512];
    rec2.run(&mags, &mut out2, &[]);
    assert!(out2.iter().all(|&x| x == 0));
}
