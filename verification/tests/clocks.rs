use synth_core::clock::{Clock, BLOCK};
use synth_core::params::ClockSource;
use synth_core::Single;

fn s(x: f32) -> Single {
    Single::from_bits(x.to_bits())
}

fn f(x: Single) -> f32 {
    f32::from_bits(x.to_bits())
}

#[test]
fn internal_clock_hits_the_right_tempo() {
    let sr = 48000.0;
    let mut c = Clock::new(s(sr));
    // 120 BPM in sixteenths: 8 steps per second.
    c.set_tempo(s(120.0), s(4.0));
    c.start();

    let mut steps = 0;
    // Exactly one second of audio.
    for _ in 0..(48000 / BLOCK) {
        steps += c.advance(BLOCK, ClockSource::Internal).steps;
    }
    assert_eq!(steps, 8, "expected 8 sixteenths per second at 120 BPM");
}

#[test]
fn tempo_scales_the_step_count() {
    let sr = 48000.0;
    let count_at = |bpm: f32| {
        let mut c = Clock::new(s(sr));
        c.set_tempo(s(bpm), s(4.0));
        c.start();
        let mut steps = 0;
        for _ in 0..(48000 / BLOCK) {
            steps += c.advance(BLOCK, ClockSource::Internal).steps;
        }
        steps
    };
    assert_eq!(count_at(60.0), 4);
    assert_eq!(count_at(120.0), 8);
    assert_eq!(count_at(240.0), 16);
}

#[test]
fn a_stopped_clock_does_not_move() {
    let mut c = Clock::new(s(48000.0));
    c.set_tempo(s(120.0), s(4.0));
    // Never started.
    for _ in 0..10000 {
        assert_eq!(c.advance(BLOCK, ClockSource::Internal).steps, 0);
    }
}

/// 24 ticks per quarter note, 4 steps per quarter note: a step every 6
/// ticks.
#[test]
fn external_clock_steps_every_six_ticks() {
    let mut c = Clock::new(s(48000.0));
    c.start();
    let mut steps = 0;
    for _ in 0..24 {
        if c.on_midi_tick(s(4.0)) {
            steps += 1;
        }
    }
    assert_eq!(steps, 4, "one quarter note should be 4 sixteenth steps");
}

#[test]
fn external_clock_estimates_the_incoming_tempo() {
    let sr = 48000.0f32;
    let mut c = Clock::new(s(sr));
    c.start();

    // Simulate a 140 BPM source: 24 ticks per beat, beat = 60/140 s.
    let samples_per_tick = sr * 60.0 / (140.0 * 24.0);
    for _ in 0..200 {
        let mut remaining = samples_per_tick;
        while remaining > 0.0 {
            let n = remaining.min(BLOCK as f32);
            c.advance(n as usize, ClockSource::ExternalMidi);
            remaining -= n;
        }
        c.on_midi_tick(s(4.0));
    }

    let estimated = f(c.tempo_bpm(s(4.0)));
    assert!(
        (estimated - 140.0).abs() < 2.0,
        "estimated {estimated} BPM, expected ~140"
    );
}

#[test]
fn external_clock_ignores_a_dropped_tick_gap() {
    let sr = 48000.0f32;
    let mut c = Clock::new(s(sr));
    c.start();
    let samples_per_tick = sr * 60.0 / (120.0 * 24.0);

    for _ in 0..100 {
        c.advance(samples_per_tick as usize, ClockSource::ExternalMidi);
        c.on_midi_tick(s(4.0));
    }
    let before = f(c.tempo_bpm(s(4.0)));

    // A two-second stall, then normal ticks resume.
    c.advance(96000, ClockSource::ExternalMidi);
    c.on_midi_tick(s(4.0));
    let after = f(c.tempo_bpm(s(4.0)));

    assert!(
        (after - before).abs() < 5.0,
        "an implausible gap moved the tempo from {before} to {after}"
    );
}

#[test]
fn start_rewinds_but_resume_does_not() {
    let mut c = Clock::new(s(48000.0));
    c.set_tempo(s(120.0), s(4.0));
    c.start();
    c.advance(1000, ClockSource::Internal);
    let mid = f(c.phase());
    assert!(mid > 0.0);

    c.stop();
    c.resume();
    assert_eq!(f(c.phase()), mid, "resume must not rewind");

    c.start();
    assert_eq!(f(c.phase()), 0.0, "start must rewind");
}

#[test]
fn a_sixteenth_at_120_is_six_thousand_samples() {
    let mut c = Clock::new(s(48000.0));
    c.set_tempo(s(120.0), s(4.0));
    assert_eq!(f(c.samples_per_step()), 6000.0);
    assert_eq!(f(c.tempo_bpm(s(4.0))), 120.0);
    // Out of range tempos are held to what a player could mean.
    c.set_tempo(s(1.0), s(4.0));
    assert_eq!(f(c.tempo_bpm(s(4.0))), 20.0);
    c.set_tempo(s(9000.0), s(4.0));
    assert_eq!(f(c.tempo_bpm(s(4.0))), 300.0);
}

#[test]
fn a_new_sample_rate_forgets_the_tick_estimate() {
    let mut c = Clock::new(s(48000.0));
    c.start();
    assert!(c.is_running());
    c.advance(1000, ClockSource::ExternalMidi);
    c.on_midi_tick(s(4.0));
    c.set_sample_rate(s(96000.0));
    assert_eq!(f(c.sample_rate), 96000.0);
    assert!(!c.tick_estimate_valid);
}

#[test]
fn the_phase_stays_below_one_while_a_tick_is_late() {
    let mut c = Clock::new(s(48000.0));
    c.set_tempo(s(120.0), s(4.0));
    c.start();
    for n in [100, 5_900, 1, 32, 50_000] {
        c.advance(n, ClockSource::ExternalMidi);
        let phase = f(c.phase());
        assert!((0.0..1.0).contains(&phase), "phase {phase} after {n} more");
    }
    // The next step starts over.
    assert!(f(c.phase()) > 0.999);
}
