use synth_core::clock::{Clock, BLOCK};
use synth_core::params::{ClockSource, Params};
use synth_core::sequencer::{GenerativeSettings, Pattern, SeqOutput, SeqSettings, Sequencer, Step, MAX_STEPS};
use synth_core::{Scale, ScaleQuantizer, Single};

fn s(x: f32) -> Single {
    Single::from_bits(x.to_bits())
}

/// Drives a sequencer for one block from a clock the test owns, as the engine
/// does.
fn block(seq: &mut Sequencer, c: &mut Clock, p: &Params) -> SeqOutput {
    if p.clock_source == ClockSource::Internal {
        c.set_tempo(p.tempo, p.steps_per_beat);
    }
    let adv = c.advance(BLOCK, p.clock_source);
    seq.advance(BLOCK, adv, c.view(), &SeqSettings::from_params(p))
}

fn settings() -> GenerativeSettings {
    GenerativeSettings {
        root: 0,
        scale: Scale::MinorPentatonic,
        octave: 3,
        range: 2,
        density: s(0.8),
        max_jump: s(3.0),
        chord_bias: s(0.6),
        length: 16,
    }
}

#[test]
fn every_generated_note_is_in_key() {
    for scale in Scale::ALL {
        for root in 0..12u8 {
            let mut seq = Sequencer::new(1234);
            let mut gen = settings();
            gen.scale = scale;
            gen.root = root;
            seq.regenerate(&gen);

            let quantizer = ScaleQuantizer::new(root, scale);
            for step in seq.pattern() {
                if step.active {
                    assert!(
                        quantizer.contains(step.note),
                        "{scale:?} root {root}: note {} is out of key",
                        step.note
                    );
                }
            }
        }
    }
}

#[test]
fn generated_notes_stay_in_the_requested_range() {
    let mut seq = Sequencer::new(99);
    let mut gen = settings();
    gen.octave = 4;
    gen.range = 2;
    seq.regenerate(&gen);

    let low = (gen.octave + 1) * 12; // C4 = 60
    let high = low + 24;
    for step in seq.pattern() {
        if step.active {
            assert!(
                (step.note as i32) >= low && (step.note as i32) <= high,
                "note {} outside octaves {}..{}",
                step.note,
                gen.octave,
                gen.octave + gen.range as i32
            );
        }
    }
}

#[test]
fn the_same_seed_gives_the_same_melody() {
    let gen = settings();
    let mut a = Sequencer::new(777);
    let mut b = Sequencer::new(777);
    a.regenerate(&gen);
    b.regenerate(&gen);
    assert_eq!(a.pattern(), b.pattern());

    let mut c = Sequencer::new(778);
    c.regenerate(&gen);
    assert_ne!(a.pattern(), c.pattern(), "different seeds should differ");
}

#[test]
fn density_controls_how_many_steps_sound() {
    let count_at = |density: f32| {
        let mut seq = Sequencer::new(5);
        let mut gen = settings();
        gen.density = s(density);
        gen.length = 64;
        seq.regenerate(&gen);
        seq.pattern().iter().filter(|s| s.active).count()
    };
    assert!(count_at(1.0) == 64);
    let sparse = count_at(0.25);
    assert!(sparse > 0 && sparse < 32, "sparse pattern had {sparse} notes");
}

#[test]
fn the_first_step_always_sounds() {
    for seed in 0..50u64 {
        let mut seq = Sequencer::new(seed);
        let mut gen = settings();
        gen.density = s(0.05);
        seq.regenerate(&gen);
        assert!(seq.pattern()[0].active, "seed {seed} started with a rest");
    }
}

/// The proximity weighting should keep the line walking rather than
/// scattering. Average interval well under an octave is the check.
#[test]
fn the_melody_walks_rather_than_leaping() {
    let mut seq = Sequencer::new(31337);
    let mut gen = settings();
    gen.length = 64;
    gen.density = s(1.0);
    seq.regenerate(&gen);

    let notes: Vec<i32> = seq.pattern().iter().map(|s| s.note as i32).collect();
    let total: i32 = notes.windows(2).map(|w| (w[1] - w[0]).abs()).sum();
    let average = total as f32 / (notes.len() - 1) as f32;
    assert!(
        average < 5.0,
        "average interval was {average} semitones, too jumpy"
    );
}

#[test]
fn downbeats_favour_chord_tones() {
    let mut seq = Sequencer::new(4242);
    let mut gen = settings();
    gen.scale = Scale::Major;
    gen.length = 64;
    gen.density = s(1.0);
    gen.chord_bias = s(1.0);
    seq.regenerate(&gen);

    let quantizer = ScaleQuantizer::new(0, Scale::Major);
    let chord_pitch_classes: Vec<u8> = Scale::Major
        .chord_degrees()
        .iter()
        .map(|&d| Scale::Major.intervals()[d])
        .collect();

    let mut downbeat_hits = 0;
    let mut downbeats = 0;
    for (i, step) in seq.pattern().iter().enumerate() {
        if i % 4 == 0 && step.active {
            downbeats += 1;
            let pc = (step.note as i32 - quantizer.root as i32).rem_euclid(12) as u8;
            if chord_pitch_classes.contains(&pc) {
                downbeat_hits += 1;
            }
        }
    }
    let ratio = downbeat_hits as f32 / downbeats as f32;
    assert!(
        ratio > 0.6,
        "only {}/{} downbeats landed on chord tones",
        downbeat_hits,
        downbeats
    );
}

#[test]
fn playing_produces_matched_note_ons_and_offs() {
    let mut seq = Sequencer::new(8);
    let gen = settings();
    seq.regenerate(&gen);

    let mut p = Params::default();
    p.tempo = s(120.0);
    p.steps_per_beat = s(4.0);
    p.seq_gate = s(0.5);
    let mut c = Clock::new(s(48000.0));
    c.start();

    let mut ons = 0;
    let mut offs = 0;
    // Four seconds of audio.
    for _ in 0..(48000 * 4 / BLOCK) {
        let out = block(&mut seq, &mut c, &p);
        if out.note_on.is_some() {
            ons += 1;
        }
        if out.note_off.is_some() {
            offs += 1;
        }
    }

    assert!(ons > 0, "sequencer never played");
    // Every note is released; at most one may still be sounding at the end.
    assert!(
        (ons - offs) <= 1,
        "{ons} note-ons but only {offs} note-offs: notes are hanging"
    );
}

#[test]
fn a_stopped_sequencer_is_silent() {
    let mut seq = Sequencer::new(8);
    seq.regenerate(&settings());
    let p = Params::default();
    let mut c = Clock::new(s(48000.0));
    // Never started the clock.
    for _ in 0..10_000 {
        assert_eq!(block(&mut seq, &mut c, &p), SeqOutput::default());
    }
}

#[test]
fn swing_delays_the_offbeats() {
    let mut seq = Sequencer::new(3);
    let mut gen = settings();
    gen.density = s(1.0);
    seq.regenerate(&gen);

    let mut p = Params::default();
    p.tempo = s(120.0);
    p.steps_per_beat = s(4.0);
    p.seq_swing = s(0.3);
    let mut c = Clock::new(s(48000.0));
    c.start();

    let mut on_times = Vec::new();
    for blk in 0..(48000 * 2 / BLOCK) {
        if block(&mut seq, &mut c, &p).note_on.is_some() {
            on_times.push(blk * BLOCK);
        }
    }

    assert!(on_times.len() > 8);
    // With swing, alternate gaps should be long-short rather than even.
    let gaps: Vec<usize> = on_times.windows(2).map(|w| w[1] - w[0]).collect();
    let long: Vec<usize> = gaps.iter().step_by(2).copied().collect();
    let short: Vec<usize> = gaps.iter().skip(1).step_by(2).copied().collect();
    let mean = |v: &[usize]| v.iter().sum::<usize>() as f32 / v.len() as f32;
    assert!(
        mean(&long) > mean(&short) * 1.3,
        "swing did not lengthen alternate steps: {} vs {}",
        mean(&long),
        mean(&short)
    );
}

/// A pattern of nothing but `note`, for telling a loaded pattern apart from
/// a generated one. The generator here works in octave 3 and up, so a note
/// this low can only have come from the load.
fn marker_pattern(note: u8, len: usize) -> Pattern {
    let steps = [Step {
        active: true,
        note,
        velocity: s(1.0),
        accent: false,
        slide: false,
    }; MAX_STEPS];
    Pattern::new(steps, len)
}

/// Runs the sequencer until `stop` says so, giving up rather than hanging
/// if the condition never comes true.
fn run_until(
    seq: &mut Sequencer,
    c: &mut Clock,
    p: &Params,
    what: &str,
    stop: impl Fn(&Sequencer) -> bool,
) {
    for _ in 0..100_000 {
        if stop(seq) {
            return;
        }
        block(seq, c, p);
    }
    panic!("gave up waiting for {what}");
}

/// Swapping patterns mid-phrase moves the melody under the ear halfway
/// through a bar. The swap waits for the top of the loop, where a listener
/// is expecting a change anyway.
#[test]
fn a_queued_pattern_waits_for_the_bar_line() {
    let mut seq = Sequencer::new(8);
    seq.regenerate(&settings());
    let before = seq.pattern().to_vec();

    let mut p = Params::default();
    p.tempo = s(120.0);
    p.steps_per_beat = s(4.0);
    let mut c = Clock::new(s(48000.0));
    c.start();

    // Get off step zero first, so the wrap we are waiting for is a real one.
    run_until(&mut seq, &mut c, &p, "the first step", |s| s.position() == 1);

    seq.queue_pattern(marker_pattern(12, 16));
    block(&mut seq, &mut c, &p);
    assert_eq!(seq.pattern(), before.as_slice(), "swapped mid-loop");
    assert!(!seq.take_pattern_changed());

    run_until(&mut seq, &mut c, &p, "the bar line", |s| s.position() == 0);
    assert!(
        seq.pattern().iter().all(|step| step.note == 12),
        "did not swap at the bar line"
    );
    assert!(seq.take_pattern_changed(), "the swap went unannounced");
    assert!(!seq.take_pattern_changed(), "the flag did not clear");
}

/// With the transport stopped there is no bar line coming, so a queued
/// pattern lands at once — including one queued a moment before the stop.
#[test]
fn a_queued_pattern_lands_at_once_when_stopped() {
    let mut seq = Sequencer::new(8);
    seq.regenerate(&settings());
    let p = Params::default();
    let mut c = Clock::new(s(48000.0));

    seq.queue_pattern(marker_pattern(12, 8));
    block(&mut seq, &mut c, &p);

    assert_eq!(seq.pattern().len(), 8, "the pattern brought its own length");
    assert!(seq.pattern().iter().all(|step| step.note == 12));
    assert!(seq.take_pattern_changed());
}

/// Clicking through slots faster than the bar goes round. Only the last one
/// should ever be heard.
#[test]
fn the_last_queued_pattern_wins() {
    let mut seq = Sequencer::new(8);
    seq.regenerate(&settings());

    let mut p = Params::default();
    p.tempo = s(120.0);
    p.steps_per_beat = s(4.0);
    let mut c = Clock::new(s(48000.0));
    c.start();
    run_until(&mut seq, &mut c, &p, "the first step", |s| s.position() == 1);

    seq.queue_pattern(marker_pattern(12, 16));
    seq.queue_pattern(marker_pattern(24, 16));

    run_until(&mut seq, &mut c, &p, "the bar line", |s| s.position() == 0);
    assert!(seq.pattern().iter().all(|step| step.note == 24));
}

#[test]
fn letting_go_ends_the_sounding_note_once() {
    let mut seq = Sequencer::new(8);
    let mut gen = settings();
    gen.density = s(1.0);
    seq.regenerate(&gen);
    let mut p = Params::default();
    p.seq_gate = s(1.5);
    let mut c = Clock::new(s(48000.0));
    c.start();
    let mut playing = None;
    for _ in 0..1000 {
        if let Some((note, _)) = block(&mut seq, &mut c, &p).note_on {
            playing = Some(note);
            break;
        }
    }
    assert!(playing.is_some());
    assert_eq!(seq.release_all(), playing);
    assert_eq!(seq.release_all(), None);
}

#[test]
fn a_rewound_sequencer_starts_at_the_top() {
    let mut seq = Sequencer::new(8);
    seq.regenerate(&settings());
    let mut c = Clock::new(s(48000.0));
    c.start();
    let p = Params::default();
    run_until(&mut seq, &mut c, &p, "the third step", |s| s.position() == 3);
    seq.rewind();
    assert_eq!(seq.position(), 0);
    seq.set_seed(1);
    let mut fresh = Sequencer::new(1);
    fresh.regenerate(&settings());
    seq.regenerate(&settings());
    assert_eq!(seq.pattern(), fresh.pattern());
}

#[test]
fn a_generated_pattern_has_the_shape_it_should() {
    for seed in 1..40u64 {
        for density in [0.0, 0.5, 1.0f32] {
            let mut seq = Sequencer::new(seed);
            let mut gen = settings();
            gen.density = s(density);
            gen.length = 23;
            seq.regenerate(&gen);
            assert_eq!(seq.pattern().len(), 23);
            assert!(seq.pattern()[0].active);
            for (i, step) in seq.pattern().iter().enumerate() {
                let v = f32::from_bits(step.velocity.to_bits());
                if !step.active {
                    assert!(density < 1.0, "a rest at full density");
                    assert_eq!(*step, Step::default());
                } else if i % 4 == 0 {
                    assert!(step.accent && !step.slide && (0.85..=1.0).contains(&v));
                } else {
                    assert!(!step.accent && !step.slide && (0.5..=0.75).contains(&v));
                }
            }
        }
    }
}

#[test]
fn the_widest_range_still_writes_a_melody() {
    let mut gen = settings();
    gen.range = i32::MAX as u32 / Scale::MinorPentatonic.len() as u32;
    gen.density = s(1.0);
    gen.max_jump = s(12.0);
    let mut a = Sequencer::new(5);
    let mut b = Sequencer::new(5);
    a.regenerate(&gen);
    b.regenerate(&gen);
    assert_eq!(a.pattern(), b.pattern());
    assert!(a.pattern().iter().all(|step| step.active));
}

#[test]
fn a_loaded_pattern_is_reported_once_over_a_run() {
    let mut p = Params::default();
    p.tempo = s(180.0);
    p.steps_per_beat = s(4.0);
    p.seq_length = 8;
    let mut seq = Sequencer::new(2);
    let mut c = Clock::new(s(48000.0));
    let mut gen = settings();
    gen.length = 8;
    seq.regenerate(&gen);
    c.start();
    // Past the first step, and past the report of the length.
    for _ in 0..200 {
        block(&mut seq, &mut c, &p);
        seq.take_pattern_changed();
    }
    let old: Vec<Step> = seq.pattern().to_vec();
    seq.queue_pattern(marker_pattern(40, 8));
    seq.queue_pattern(marker_pattern(41, 8));
    let mut reports = 0;
    for _ in 0..2_000 {
        let before = seq.position();
        block(&mut seq, &mut c, &p);
        if seq.take_pattern_changed() {
            reports += 1;
            assert_eq!((before, seq.position()), (7, 0), "it landed away from the bar line");
        }
        if reports == 0 {
            assert_eq!(seq.pattern(), &old[..]);
        } else {
            assert!(seq.pattern().iter().all(|step| step.note == 41));
        }
    }
    assert_eq!(reports, 1);
}
