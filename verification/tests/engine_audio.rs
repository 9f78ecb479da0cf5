use synth_core::clock::{Clock, BLOCK};
use synth_core::compressor::Compressor;
use synth_core::curve::Curve;
use synth_core::drums::kit::Kit;
use synth_core::drums::pattern::Cell;
use synth_core::drums::rack::DrumRack;
use synth_core::engine::{EVENT_BUDGET, MAX_ORDERS};
use synth_core::event::{Event, EventQueue};
use synth_core::fx::FxChain;
use synth_core::params::{ClockSource, CompressorParams, Params, SharedParams, SidechainSource};
use synth_core::pool::Pool;
use synth_core::presets::ALL;
use synth_core::studio::{Studio, BUFFERS};
use synth_core::Single;

fn s(x: f32) -> Single {
    Single::from_bits(x.to_bits())
}

fn f(x: Single) -> f32 {
    f32::from_bits(x.to_bits())
}

fn curve(c: Curve, x: Single) -> Single {
    let x = f(x);
    s(match c {
        Curve::Sine => x.sin(),
        Curve::Cosine => x.cos(),
        Curve::Tangent => x.tan(),
        Curve::Exponential => x.exp(),
        Curve::TwoTo => x.exp2(),
        Curve::TenTo => 10.0f32.powf(x),
        Curve::Logarithm => x.ln(),
        Curve::BinaryLogarithm => x.log2(),
        Curve::DecimalLogarithm => x.log10(),
        Curve::SquareRoot => x.sqrt(),
        Curve::Power(base) => f(base).powf(x),
    })
}

/// A studio and what it shares.
struct Rig {
    studio: Studio,
    shared: SharedParams,
}

fn rig_of(mut shared: SharedParams) -> Rig {
    let studio = Studio::new(s(48000.0), &mut shared, EventQueue::new(256), curve);
    Rig { studio, shared }
}

fn rig_with(p: &Params) -> Rig {
    rig_of(SharedParams::from_params(p))
}

fn rig() -> Rig {
    rig_with(&Params::default())
}

fn preset(setup: impl FnOnce(&mut SharedParams)) -> Rig {
    let mut shared = SharedParams::from_params(&Params::default());
    setup(&mut shared);
    rig_of(shared)
}

impl Rig {
    fn push(&mut self, event: Event) -> bool {
        self.studio.engine.events[0].push(event)
    }

    fn process(&mut self, out: &mut [f32]) {
        let mut frames = Vec::new();
        self.studio.process(&mut self.shared, out.len(), &mut frames, curve);
        for (slot, x) in out.iter_mut().zip(frames) {
            *slot = f(x);
        }
    }

    fn process_stereo_interleaved(&mut self, out: &mut [f32]) {
        let mut frames = Vec::new();
        let count = out.len() / 2;
        self.studio.process_stereo_interleaved(&mut self.shared, count, &mut frames, curve);
        for (slot, x) in out.iter_mut().zip(frames) {
            *slot = f(x);
        }
    }
}

fn render(rig: &mut Rig, samples: usize) -> Vec<f32> {
    let mut out = vec![0.0; samples];
    rig.process(&mut out);
    out
}

fn render_stereo(rig: &mut Rig, frames: usize) -> Vec<f32> {
    let mut out = vec![0.0; frames * 2];
    rig.process_stereo_interleaved(&mut out);
    out
}

fn peak(buffer: &[f32]) -> f32 {
    buffer.iter().fold(0.0f32, |a, &b| a.max(b.abs()))
}

fn engine_peak(rig: &mut Rig, blocks: usize) -> f32 {
    let out = render_stereo(rig, blocks * BLOCK);
    assert!(out.iter().all(|s| s.is_finite()), "the bus went non-finite");
    peak(&out)
}

/// Equality on the bits, not on the values.
fn bit_identical(a: &[f32], b: &[f32]) -> bool {
    a.len() == b.len() && a.iter().zip(b.iter()).all(|(x, y)| x.to_bits() == y.to_bits())
}

/// Below this, the output is inaudible. The DC blocker's tail never quite arrives at
/// zero.
const SILENT: f32 = 1e-4;

fn assert_silent(buffer: &[f32], what: &str) {
    let p = peak(buffer);
    assert!(p < SILENT, "{what}: peak was {p}");
}

/// A cell on the downbeat of the first pad.
fn kick_on_one(rig: &mut Rig) {
    assert!(rig.push(Event::SetDrumCell {
        step: 0,
        pad: 0,
        cell: Cell { active: true, velocity: s(1.0) },
    }));
}

/// One held middle C, everything else at its default.
fn golden_render() -> Vec<f32> {
    let mut e = rig();
    e.shared.seq_playing.set(false);
    e.push(Event::NoteOn { note: 60, velocity: s(0.8) });
    render(&mut e, 4096)
}

const GOLDEN_WINDOW: [u32; 16] = [
    0xbe1e6c64, 0xbe1a2c83, 0xbe15e73a, 0xbe119c18, 0xbe0d4af2, 0xbe08f415, 0xbe049826, 0xbe0037d3,
    0xbdf7a754, 0xbdeed81e, 0xbde60286, 0xbddd26f3, 0xbdd445b6, 0xbdcb5f25, 0xbdc2739a, 0xbdb9836e,
];

#[test]
fn an_enabled_but_empty_rack_leaves_the_output_untouched() {
    let mut off = rig();
    let mut on = rig();
    for rig in [&mut off, &mut on] {
        rig.shared.tempo.set(s(140.0));
        rig.shared.gen_density.set(s(1.0));
    }
    off.shared.drum_enabled.set(false);
    on.shared.drum_enabled.set(true);
    off.push(Event::ClockStart);
    on.push(Event::ClockStart);

    let quiet = render(&mut off, 48_000);
    assert!(peak(&quiet) > 0.02, "the melody never played");
    assert_eq!(render(&mut on, 48_000), quiet);
}

#[test]
fn an_enabled_drum_reaches_the_output() {
    let mut engine = rig();
    engine.shared.drum_enabled.set(true);
    engine.shared.seq_playing.set(true);
    engine.shared.melody_enabled.set(false);
    assert!(engine.push(Event::SetDrumCell {
        step: 0,
        pad: 0,
        cell: Cell {
            active: true,
            velocity: s(1.0),
        },
    }));

    assert!(
        peak(&render(&mut engine, 8_192)) > 0.01,
        "the drum bus never arrived"
    );
}

#[test]
fn silent_with_no_input() {
    let mut e = rig();
    e.shared.seq_playing.set(false);
    let out = render(&mut e, 48000);
    assert_eq!(peak(&out), 0.0);
}

#[test]
fn a_note_makes_sound() {
    let mut e = rig();
    e.shared.seq_playing.set(false);
    e.push(Event::NoteOn {
        note: 60,
        velocity: s(1.0),
    });
    let out = render(&mut e, 24000);
    assert!(peak(&out) > 0.05, "peak was {}", peak(&out));
}

#[test]
fn output_never_leaves_the_legal_range() {
    let mut e = rig();
    e.shared.resonance.set(s(1.0));
    e.shared.drive.set(s(20.0));
    e.shared.master_gain.set(s(2.0));
    e.shared.seq_playing.set(true);
    for note in 36..60u8 {
        e.push(Event::NoteOn {
            note,
            velocity: s(1.0),
        });
    }
    let out = render(&mut e, 48000 * 2);
    for (i, s) in out.iter().enumerate() {
        assert!(s.is_finite(), "sample {i} was {s}");
        assert!(s.abs() <= 1.0, "sample {i} was {s}, outside [-1, 1]");
    }
}

#[test]
fn note_off_releases_the_voice() {
    let mut e = rig();
    e.shared.seq_playing.set(false);
    e.shared.amp_release.set(s(0.02));
    e.push(Event::NoteOn {
        note: 60,
        velocity: s(1.0),
    });
    render(&mut e, 4800);
    e.push(Event::NoteOff { note: 60 });
    render(&mut e, 48000);
    let tail = render(&mut e, 4800);
    assert_silent(&tail, "voice never released");
}

#[test]
fn panic_silences_everything_immediately() {
    let mut e = rig();
    e.shared.seq_playing.set(false);
    e.shared.amp_release.set(s(10.0));
    for note in 50..60u8 {
        e.push(Event::NoteOn {
            note,
            velocity: s(1.0),
        });
    }
    render(&mut e, 4800);
    e.push(Event::Panic);
    render(&mut e, 24000);
    let after = render(&mut e, 4800);
    assert_silent(&after, "panic left sound behind");
}

#[test]
fn the_sequencer_plays_when_started() {
    let mut e = rig();
    e.shared.tempo.set(s(140.0));
    e.shared.gen_density.set(s(1.0));
    e.push(Event::ClockStart);
    let out = render(&mut e, 48000 * 2);
    assert!(peak(&out) > 0.02, "sequencer produced nothing");
}

#[test]
fn stopping_the_transport_stops_the_sound() {
    let mut e = rig();
    e.shared.tempo.set(s(140.0));
    e.shared.amp_release.set(s(0.05));
    e.push(Event::ClockStart);
    render(&mut e, 48000);
    e.push(Event::ClockStop);
    render(&mut e, 48000);
    let after = render(&mut e, 24000);
    assert_silent(&after, "notes hung after stop");
}

#[test]
fn external_clock_ticks_drive_the_sequencer() {
    let mut e = rig();
    e.shared.clock_source.set(ClockSource::ExternalMidi.to_u32());
    e.shared.gen_density.set(s(1.0));
    e.push(Event::ClockStart);
    let samples_per_tick = 48000.0 * 60.0 / (120.0 * 24.0);
    let mut out = Vec::new();
    for _ in 0..96 {
        e.push(Event::ClockTick);
        out.extend(render(&mut e, samples_per_tick as usize));
    }
    assert!(peak(&out) > 0.02, "external clock produced no notes");
}

#[test]
fn unticking_the_melody_silences_the_sequencer() {
    let mut e = rig();
    e.shared.tempo.set(s(140.0));
    e.shared.gen_density.set(s(1.0));
    e.shared.melody_enabled.set(false);
    e.push(Event::ClockStart);

    assert_silent(&render(&mut e, 48000 * 2), "the melody played while muted");
}

#[test]
fn unticking_the_melody_silences_the_sequencer_under_an_external_clock() {
    let mut e = rig();
    e.shared.clock_source.set(ClockSource::ExternalMidi.to_u32());
    e.shared.gen_density.set(s(1.0));
    e.shared.melody_enabled.set(false);
    e.push(Event::ClockStart);
    let samples_per_tick = 48000.0 * 60.0 / (120.0 * 24.0);
    let mut out = Vec::new();
    for _ in 0..96 {
        e.push(Event::ClockTick);
        out.extend(render(&mut e, samples_per_tick as usize));
    }
    assert_silent(&out, "the melody played while muted under an external clock");
}

#[test]
fn a_flood_of_events_does_not_stall_the_callback() {
    let mut e = rig();
    for _ in 0..10_000 {
        e.push(Event::ModWheel(s(0.5)));
    }
    let out = render(&mut e, BLOCK);
    assert!(out.iter().all(|s| s.is_finite()));
}

#[test]
fn stereo_matches_mono() {
    let mut e = rig();
    e.shared.seq_playing.set(false);
    e.push(Event::NoteOn { note: 60, velocity: s(1.0) });
    let mut stereo = vec![0.0; 2048];
    e.process_stereo_interleaved(&mut stereo);
    for frame in stereo.chunks(2) {
        assert_eq!(frame[0], frame[1], "channels diverged");
    }
    assert!(peak(&stereo) > 0.0);
}

#[test]
fn the_reverb_makes_the_output_stereo() {
    let mut e = rig();
    e.shared.seq_playing.set(false);
    e.shared.reverb_mix.set(s(0.8));
    e.shared.reverb_size.set(s(0.8));
    e.shared.reverb_width.set(s(1.0));
    e.push(Event::NoteOn {
        note: 60,
        velocity: s(0.8),
    });

    let mut out = vec![0.0; 8192];
    e.process_stereo_interleaved(&mut out);

    let differing = out
        .chunks_exact(2)
        .filter(|frame| (frame[0] - frame[1]).abs() > 1e-6)
        .count();
    assert!(differing > 1000, "only {differing} frames differed");
}

#[test]
fn the_dry_output_is_still_mono() {
    let mut e = rig();
    e.shared.seq_playing.set(false);
    e.push(Event::NoteOn {
        note: 60,
        velocity: s(0.8),
    });

    let mut out = vec![0.0; 4096];
    e.process_stereo_interleaved(&mut out);

    for (i, frame) in out.chunks_exact(2).enumerate() {
        assert_eq!(frame[0], frame[1], "frame {i} was not mono");
    }
}

/// The last bits of a sample hang on how the machine rounds its tangents and powers, so
/// the recorded window is met to within a few of them.
#[test]
fn the_dry_path_stays_on_the_recorded_window() {
    let out = golden_render();
    for (i, (sample, bits)) in out[2048..2064].iter().zip(GOLDEN_WINDOW).enumerate() {
        let recorded = f32::from_bits(bits);
        assert!((sample - recorded).abs() < 2e-7, "sample {i}: {sample} for {recorded}");
    }
}

#[test]
fn a_zeroed_synth_gain_silences_the_melody() {
    let mut engine = preset(|p| {
        p.synth_gain.set(s(0.0));
        p.tempo.set(s(140.0));
        p.gen_density.set(s(1.0));
    });
    engine.push(Event::ClockStart);

    assert_eq!(
        peak(&render(&mut engine, 48_000)),
        0.0,
        "the melody played through a closed synth gain"
    );
}

#[test]
fn a_zeroed_synth_gain_leaves_the_drums_alone() {
    let mut engine = preset(|p| {
        p.synth_gain.set(s(0.0));
        p.drum_enabled.set(true);
        p.seq_playing.set(true);
        p.melody_enabled.set(false);
    });
    kick_on_one(&mut engine);

    assert!(
        peak(&render(&mut engine, 8_192)) > 0.01,
        "the synth gain swallowed the drum bus"
    );
}

#[test]
fn a_zeroed_drum_gain_silences_the_drums() {
    for send in [0.0, 1.0] {
        let mut engine = preset(|p| {
            p.drum_gain.set(s(0.0));
            p.drum_enabled.set(true);
            p.seq_playing.set(true);
            p.melody_enabled.set(false);
            p.drum_send.set(s(send));
            p.delay_mix.set(s(1.0));
        });
        kick_on_one(&mut engine);

        assert_eq!(
            peak(&render(&mut engine, 8_192)),
            0.0,
            "the rack played through a closed drum gain (drum_send = {send})"
        );
    }
}

#[test]
fn a_zeroed_drum_gain_leaves_the_melody_alone() {
    let mut engine = preset(|p| {
        p.drum_gain.set(s(0.0));
        p.tempo.set(s(140.0));
        p.gen_density.set(s(1.0));
    });
    engine.push(Event::ClockStart);

    assert!(
        peak(&render(&mut engine, 48_000)) > 0.02,
        "the drum gain swallowed the melody"
    );
}

#[test]
fn a_hard_left_pad_stays_stereo_at_the_engine_output() {
    let mut engine = preset(|p| {
        p.melody_enabled.set(false);
        p.drum_enabled.set(true);
        p.pad_pan[0].set(s(-1.0));
    });
    kick_on_one(&mut engine);
    engine.push(Event::ClockStart);

    let out = render_stereo(&mut engine, 8192);
    let l: Vec<f32> = out.iter().step_by(2).copied().collect();
    let r: Vec<f32> = out.iter().skip(1).step_by(2).copied().collect();
    assert_eq!(peak(&r), 0.0, "the hard-left pad leaked into the right channel");
    assert!(peak(&l) > 0.0, "the hard-left pad silenced the left channel too");
}

#[test]
fn the_return_adds_nothing_at_zero_mix() {
    let mut full = preset(|p| {
        p.seq_playing.set(false);
        p.synth_send.set(s(1.0));
    });
    let mut none = preset(|p| {
        p.seq_playing.set(false);
        p.synth_send.set(s(0.0));
    });
    for tx in [&mut full, &mut none] {
        tx.push(Event::NoteOn {
            note: 60,
            velocity: s(0.8),
        });
    }

    assert_eq!(render(&mut full, 4096), render(&mut none, 4096));
}

#[test]
fn an_armed_sidechain_over_a_silent_rack_changes_nothing() {
    let mut armed = preset(|p| {
        p.seq_playing.set(false);
        p.drum_enabled.set(true);
        p.comp_synth.on.set(true);
        p.comp_synth.sidechain.set(SidechainSource::Kick.to_u32());
    });
    let mut bypassed = preset(|p| {
        p.seq_playing.set(false);
        p.drum_enabled.set(true);
    });
    for tx in [&mut armed, &mut bypassed] {
        tx.push(Event::NoteOn {
            note: 60,
            velocity: s(0.8),
        });
        tx.push(Event::ClockStart);
    }
    assert!(
        bit_identical(&render(&mut armed, 4096), &render(&mut bypassed, 4096)),
        "the armed sidechain moved the output"
    );
}

#[test]
fn the_kick_ducks_the_synth_through_the_sidechain() {
    let arm = |p: &mut SharedParams| {
        p.seq_playing.set(false);
        p.drum_enabled.set(true);
        p.drum_gain.set(s(0.0));
        p.comp_synth.on.set(true);
        p.comp_synth.sidechain.set(SidechainSource::Kick.to_u32());
        p.comp_synth.threshold_db.set(s(-30.0));
        p.comp_synth.ratio.set(s(10.0));
        p.comp_synth.attack_ms.set(s(1.0));
        p.comp_synth.release_ms.set(s(200.0));
    };
    let mut ducked = preset(arm);
    let mut steady = preset(arm);
    for tx in [&mut ducked, &mut steady] {
        tx.push(Event::NoteOn {
            note: 60,
            velocity: s(0.8),
        });
    }
    kick_on_one(&mut ducked);
    ducked.push(Event::ClockStart);
    steady.push(Event::ClockStart);

    let ducked_out = render(&mut ducked, 8192);
    let steady_out = render(&mut steady, 8192);
    assert!(peak(&steady_out) > 0.0, "the synth never sounded");
    assert!(
        peak(&ducked_out) < peak(&steady_out) * 0.9,
        "the kick did not duck the synth: {} vs {}",
        peak(&ducked_out),
        peak(&steady_out)
    );
}

#[test]
fn the_meter_reports_the_reduction_the_compressor_applied() {
    let squash = |p: &mut SharedParams| {
        p.seq_playing.set(false);
        p.master_gain.set(s(1.0));
        p.comp_master.on.set(true);
        p.comp_master.threshold_db.set(s(-24.0));
        p.comp_master.ratio.set(s(8.0));
        p.comp_master.attack_ms.set(s(0.1));
    };
    let mut squashed = preset(squash);
    let mut open = preset(|p| {
        p.seq_playing.set(false);
        p.master_gain.set(s(1.0));
    });
    for tx in [&mut squashed, &mut open] {
        tx.push(Event::NoteOn { note: 60, velocity: s(1.0) });
    }
    let squashed_out = render(&mut squashed, 8_192);
    let open_out = render(&mut open, 8_192);
    assert!(peak(&open_out) > 0.0, "the synth never sounded");

    let reported = f(squashed.shared.comp_master_gr.get());
    assert!(reported > 0.0, "the meter reported no reduction");

    let measured = 20.0 * (peak(&open_out) / peak(&squashed_out)).log10();
    assert!(
        (reported - measured).abs() < 3.0,
        "meter says {reported} dB, the output moved {measured} dB"
    );
}

#[test]
fn the_synth_meter_reports_the_reduction_the_compressor_applied() {
    let squash = |p: &mut SharedParams| {
        p.seq_playing.set(false);
        p.master_gain.set(s(1.0));
        p.comp_synth.on.set(true);
        p.comp_synth.threshold_db.set(s(-24.0));
        p.comp_synth.ratio.set(s(8.0));
        p.comp_synth.attack_ms.set(s(0.1));
    };
    let mut squashed = preset(squash);
    let mut open = preset(|p| {
        p.seq_playing.set(false);
        p.master_gain.set(s(1.0));
    });
    for tx in [&mut squashed, &mut open] {
        tx.push(Event::NoteOn { note: 60, velocity: s(1.0) });
    }
    let squashed_out = render(&mut squashed, 8_192);
    let open_out = render(&mut open, 8_192);
    assert!(peak(&open_out) > 0.0, "the synth never sounded");

    let reported = f(squashed.shared.comp_synth_gr.get());
    assert!(reported > 0.0, "the meter reported no reduction");

    let measured = 20.0 * (peak(&open_out) / peak(&squashed_out)).log10();
    assert!(
        (reported - measured).abs() < 3.0,
        "meter says {reported} dB, the output moved {measured} dB"
    );
}

#[test]
fn the_meter_empties_when_the_compressor_is_off() {
    let mut engine = preset(|p| {
        p.seq_playing.set(false);
        p.comp_master.on.set(true);
        p.comp_master.threshold_db.set(s(-40.0));
    });
    engine.push(Event::NoteOn { note: 60, velocity: s(1.0) });
    render(&mut engine, 4_096);
    assert!(f(engine.shared.comp_master_gr.get()) > 0.0, "never compressed");

    engine.shared.comp_master.on.set(false);
    render(&mut engine, 4_096);
    assert_eq!(f(engine.shared.comp_master_gr.get()), 0.0);
}

#[test]
fn the_bass_is_silent_until_it_is_enabled() {
    let quiet = Params {
        bass_enabled: false,
        melody_enabled: false,
        drum_enabled: false,
        seq_playing: true,
        ..Params::default()
    };
    let mut engine = rig_with(&quiet);
    assert!(engine_peak(&mut engine, 400) < 1e-6, "the bass must stay off");

    engine.shared.bass_enabled.set(true);
    assert!(engine_peak(&mut engine, 400) > 0.001, "and sound once switched on");
}

#[test]
fn bass_send_feeds_the_return_and_zero_does_not() {
    let base = Params {
        bass_enabled: true,
        melody_enabled: false,
        drum_enabled: false,
        seq_playing: true,
        reverb_mix: s(1.0),
        bass_gain: s(0.4),
        ..Params::default()
    };
    let closed = Params { bass_send: s(0.0), ..base };
    let mut dry_engine = rig_with(&closed);
    let dry = engine_peak(&mut dry_engine, 800);

    let open = Params { bass_send: s(1.0), ..base };
    let mut wet_engine = rig_with(&open);
    let wet = engine_peak(&mut wet_engine, 800);

    assert!(wet > dry, "an open send should add a tail: {dry} -> {wet}");
}

#[test]
fn comp_bass_reports_the_reduction_it_applies() {
    let p = Params {
        bass_enabled: true,
        seq_playing: true,
        comp_bass: CompressorParams {
            on: true,
            threshold_db: s(-50.0),
            ratio: s(20.0),
            ..CompressorParams::default()
        },
        ..Params::default()
    };
    let mut engine = rig_with(&p);
    engine_peak(&mut engine, 600);
    assert!(
        f(engine.shared.comp_bass_gr.get()) > 0.5,
        "a -50 dB threshold at 20:1 should show real gain reduction"
    );
}

#[test]
fn the_bass_bus_skips_the_drive_stage() {
    let p = Params {
        bass_enabled: true,
        melody_enabled: false,
        drum_enabled: false,
        seq_playing: true,
        drive: s(1.0),
        ..Params::default()
    };
    let mut engine = rig_with(&p);
    let clean = engine_peak(&mut engine, 600);

    engine.shared.drive.set(s(8.0));
    let driven = engine_peak(&mut engine, 600);
    assert!(
        (clean - driven).abs() < clean * 0.05,
        "drive must not touch the bass: {clean} vs {driven}"
    );
}

#[test]
fn clock_stop_silences_a_gated_bass_note() {
    let p = Params {
        bass_enabled: true,
        melody_enabled: false,
        drum_enabled: false,
        seq_gate: s(2.0),
        ..Params::default()
    };
    let mut engine = rig_with(&p);
    engine.shared.tempo.set(s(140.0));
    engine.shared.bass_gen_density.set(s(1.0));

    engine.push(Event::ClockStart);
    let gated = render(&mut engine, 48_000);
    assert!(peak(&gated) > SILENT, "bass never gated a note");

    engine.push(Event::ClockStop);
    let after = render(&mut engine, 200);
    assert_silent(&after, "bass note hung after the transport stopped");
}

#[test]
fn seq_playing_false_silences_a_gated_bass_note() {
    let p = Params {
        bass_enabled: true,
        melody_enabled: false,
        drum_enabled: false,
        seq_gate: s(2.0),
        seq_playing: true,
        ..Params::default()
    };
    let mut engine = rig_with(&p);
    engine.shared.tempo.set(s(140.0));
    engine.shared.bass_gen_density.set(s(1.0));

    let gated = render(&mut engine, 48_000);
    assert!(peak(&gated) > SILENT, "bass never gated a note");

    engine.shared.seq_playing.set(false);
    let after = render(&mut engine, 200);
    assert_silent(&after, "bass note hung after seq_playing went false");
}

#[test]
fn panic_silences_a_gated_bass_note() {
    let p = Params {
        bass_enabled: true,
        melody_enabled: false,
        drum_enabled: false,
        seq_playing: true,
        ..Params::default()
    };
    let mut engine = rig_with(&p);
    engine.shared.tempo.set(s(140.0));
    engine.shared.bass_gen_density.set(s(1.0));

    let gated = render(&mut engine, 48_000);
    assert!(peak(&gated) > SILENT, "bass never gated a note");

    engine.push(Event::Panic);
    let after = render(&mut engine, 200);
    assert_silent(&after, "panic left the bass gated");
}

#[test]
fn stopping_the_transport_silences_the_bass() {
    let p = Params {
        bass_enabled: true,
        melody_enabled: false,
        drum_enabled: false,
        seq_playing: true,
        ..Params::default()
    };
    let mut engine = rig_with(&p);
    assert!(engine_peak(&mut engine, 600) > 0.001, "playing");

    assert!(engine.push(Event::ClockStop));
    render_stereo(&mut engine, BLOCK);
    assert!(engine_peak(&mut engine, 200) < 1e-6, "stopped means silent");
}

#[test]
fn panic_silences_the_bass() {
    let p = Params {
        bass_enabled: true,
        melody_enabled: false,
        drum_enabled: false,
        seq_playing: true,
        ..Params::default()
    };
    let mut engine = rig_with(&p);
    engine_peak(&mut engine, 600);
    engine.shared.seq_playing.set(false);
    assert!(engine.push(Event::Panic));
    render_stereo(&mut engine, BLOCK);
    assert!(engine_peak(&mut engine, 100) < 1e-6, "panic cuts everything");
}

/// A patch that asks for it restarts the modulation with every note; otherwise it runs
/// on.
#[test]
fn a_new_note_restarts_the_modulation_where_asked() {
    for (asked, restarted) in [(true, true), (false, false)] {
        let mut e = rig();
        e.shared.seq_playing.set(false);
        e.shared.lfo_retrigger.set(asked);
        render(&mut e, 960);
        let before = e.studio.band.lfo.phase;
        e.push(Event::NoteOn { note: 60, velocity: s(1.0) });
        render(&mut e, BLOCK);
        assert_eq!(e.studio.band.lfo.phase.lt(before), restarted);
    }
}

#[test]
fn a_wet_engine_fills_both_channels_differently() {
    let mut e = rig();
    e.shared.seq_playing.set(false);
    e.shared.reverb_mix.set(s(0.8));
    e.shared.reverb_size.set(s(0.8));
    e.push(Event::NoteOn { note: 60, velocity: s(0.8) });

    let mut scratch = vec![0.0f32; 8192];
    e.process_stereo_interleaved(&mut scratch);

    let differing = scratch
        .chunks_exact(2)
        .filter(|frame| (frame[0] - frame[1]).abs() > 1e-6)
        .count();
    assert!(differing > 500, "only {differing} frames differed");
}

#[test]
fn every_preset_produces_audio() {
    for preset in ALL {
        let mut shared = SharedParams::from_params(&Params::default());
        preset.apply(&mut shared);
        shared.seq_playing.set(false);
        let mut e = rig_of(shared);
        e.push(Event::NoteOn { note: 55, velocity: s(1.0) });

        let out = render(&mut e, 48000 * 2);
        let loudest = peak(&out);
        assert!(loudest > 0.01, "preset {preset:?} was silent (peak {loudest})");
        assert!(out.iter().all(|s| s.is_finite()), "preset {preset:?} produced a non-finite sample");
    }
}

#[test]
fn a_grid_with_a_hit_makes_sound() {
    let p = Params { drum_enabled: true, ..Params::default() };
    let mut clock = Clock::new(s(48_000.0));
    clock.set_tempo(p.tempo, p.steps_per_beat);
    clock.start();
    let mut rack = DrumRack::new();
    let mut kit = Kit::new(s(48_000.0), 0x51D);
    rack.sequencer().set_cell(0, 0, Cell { active: true, velocity: s(1.0) });

    let mut loudest = 0.0f32;
    for _ in 0..200 {
        let adv = clock.advance(BLOCK, ClockSource::Internal);
        let mut orders = Vec::new();
        rack.cue(BLOCK, adv, clock.view(), &p, &mut orders);
        for order in orders {
            kit.obey(order, curve);
        }
        if let Some(buses) = kit.render(BLOCK, &p, curve, &mut Pool::new(5, BLOCK)) {
            for x in &buses.dry_l {
                loudest = loudest.max(f(*x).abs());
            }
            assert_eq!(buses.dry_l, buses.dry_r, "a centred pad is the same on both sides");
        }
    }
    assert!(loudest > 0.05, "the kick never reached the bus: {loudest}");
}

/// Runs a fresh chain over two channels, as an insert.
fn inserted(l: &mut [f32], r: &mut [f32], params: &Params) {
    let mut chain = FxChain::new(s(48_000.0), curve);
    for (cl, cr) in l.chunks_mut(BLOCK).zip(r.chunks_mut(BLOCK)) {
        let mut left: Vec<Single> = cl.iter().map(|x| s(*x)).collect();
        let mut right: Vec<Single> = cr.iter().map(|x| s(*x)).collect();
        chain.process_block(&mut left, &mut right, params, params.tempo, curve);
        for (slot, x) in cl.iter_mut().zip(left) {
            *slot = f(x);
        }
        for (slot, x) in cr.iter_mut().zip(right) {
            *slot = f(x);
        }
    }
}

#[test]
fn the_delay_survives_the_engines_output_stage() {
    let mut e = rig();
    e.shared.seq_playing.set(false);
    e.shared.delay_mix.set(s(0.8));
    e.shared.delay_time.set(s(0.2));
    e.shared.delay_feedback.set(s(0.6));
    e.push(Event::NoteOn { note: 60, velocity: s(1.0) });

    let mut out = render(&mut e, 4800);
    e.push(Event::NoteOff { note: 60 });
    out.extend(render(&mut e, 43200));

    // The note stopped a tenth of a second in; anything still audible at half a second
    // is the delay.
    let late: f32 = out[24000..].iter().map(|s| s.abs()).sum();
    assert!(late > 1.0, "no repeats after the note ended: {late}");
}

#[test]
fn a_wet_patch_still_respects_the_output_limits() {
    let mut e = rig();
    e.shared.seq_playing.set(false);
    e.shared.drive.set(s(4.0));
    e.shared.delay_mix.set(s(1.0));
    e.shared.delay_feedback.set(s(0.95));
    e.shared.delay_time.set(s(0.01));
    e.shared.reverb_mix.set(s(1.0));
    e.shared.reverb_size.set(s(1.0));
    e.shared.reverb_damping.set(s(0.0));

    for note in 40..56 {
        e.push(Event::NoteOn { note, velocity: s(1.0) });
    }

    let out = render(&mut e, 48000 * 4);
    for (i, sample) in out.iter().enumerate() {
        assert!(sample.is_finite(), "sample {i} was {sample}");
        assert!(sample.abs() <= 1.0, "sample {i} was {sample}");
    }
}

#[test]
fn a_full_send_reproduces_the_insert_it_replaced() {
    let mut dry_engine = preset(|p| {
        p.seq_playing.set(false);
        p.master_gain.set(s(1.0));
        p.delay_time.set(s(0.01));
    });
    dry_engine.push(Event::NoteOn { note: 60, velocity: s(0.8) });
    let dry = render_stereo(&mut dry_engine, 4096);

    // The same signal through a fresh chain, as an insert. At 0.01 s the delay rings
    // inside the window, and the plate tells the channels apart.
    let mut l: Vec<f32> = dry.iter().step_by(2).copied().collect();
    let mut r: Vec<f32> = dry.iter().skip(1).step_by(2).copied().collect();
    let reference_params = Params {
        delay_mix: s(0.5),
        delay_time: s(0.01),
        reverb_mix: s(0.5),
        ..Params::default()
    };
    inserted(&mut l, &mut r, &reference_params);

    // And through the engine, sent to the return at 1.0.
    let mut wet_engine = preset(|p| {
        p.seq_playing.set(false);
        p.master_gain.set(s(1.0));
        p.synth_send.set(s(1.0));
        p.delay_mix.set(s(0.5));
        p.delay_time.set(s(0.01));
        p.reverb_mix.set(s(0.5));
    });
    wet_engine.push(Event::NoteOn { note: 60, velocity: s(0.8) });
    let wet = render_stereo(&mut wet_engine, 4096);

    assert!(peak(&wet) > 0.0);
    let moved = wet
        .iter()
        .zip(dry.iter())
        .fold(0.0f32, |a, (w, d)| a.max((w - d * 0.5).abs()));
    assert!(moved > 1.0e-3, "the delay was inaudible; the test is vacuous: {moved:e}");
    let spread = l
        .iter()
        .zip(r.iter())
        .fold(0.0f32, |a, (x, y)| a.max((x - y).abs()));
    assert!(spread > 1.0e-3, "the reference is mono; a channel swap would pass: {spread:e}");

    for (i, sample) in wet.iter().enumerate() {
        let want = if i % 2 == 0 { l[i / 2] } else { r[i / 2] };
        assert!(
            (sample - want).abs() < 1.0e-6,
            "sample {i}: return {sample} vs insert {want}"
        );
    }
}

fn drums_alone(drum_send: f32, delay_mix: f32) -> Rig {
    preset(|p| {
        p.melody_enabled.set(false);
        p.drum_enabled.set(true);
        p.drum_send.set(s(drum_send));
        p.delay_mix.set(s(delay_mix));
    })
}

fn start_the_kick(rig: &mut Rig) {
    kick_on_one(rig);
    rig.push(Event::ClockStart);
}

#[test]
fn a_closed_drum_send_keeps_the_rack_out_of_the_return() {
    let mut wet = drums_alone(0.0, 1.0);
    let mut dry = drums_alone(0.0, 0.0);
    start_the_kick(&mut wet);
    start_the_kick(&mut dry);

    let wet_out = render(&mut wet, 8192);
    assert!(peak(&wet_out) > 0.0, "the rack never sounded");
    assert_eq!(wet_out, render(&mut dry, 8192));
}

#[test]
fn an_open_drum_send_reaches_the_effects() {
    let mut open = drums_alone(1.0, 1.0);
    let mut shut = drums_alone(0.0, 1.0);
    start_the_kick(&mut open);
    start_the_kick(&mut shut);

    assert_ne!(render(&mut open, 8192), render(&mut shut, 8192));
}

#[test]
fn a_pad_send_of_zero_survives_to_the_return() {
    let mut sent = drums_alone(1.0, 1.0);
    sent.shared.pad_send[0].set(s(1.0));
    let mut held_back = drums_alone(1.0, 1.0);
    held_back.shared.pad_send[0].set(s(0.0));
    // The same again with the return itself shut. An empty return adds exactly zero.
    let mut closed = drums_alone(1.0, 0.0);
    closed.shared.pad_send[0].set(s(0.0));
    start_the_kick(&mut sent);
    start_the_kick(&mut held_back);
    start_the_kick(&mut closed);

    let sent_out = render(&mut sent, 8192);
    let held_out = render(&mut held_back, 8192);
    let closed_out = render(&mut closed, 8192);
    assert_ne!(sent_out, held_out);
    assert!(
        bit_identical(&held_out, &closed_out),
        "muting pad 0 out of the send left something in the return"
    );
}

#[test]
fn the_synth_compressor_sits_ahead_of_the_send_tap() {
    let mut dry_engine = preset(|p| {
        p.seq_playing.set(false);
        p.master_gain.set(s(1.0));
    });
    dry_engine.push(Event::NoteOn { note: 60, velocity: s(0.8) });
    let dry = render_stereo(&mut dry_engine, 4096);
    let mut comp_l: Vec<f32> = dry.iter().step_by(2).copied().collect();
    let mut comp_r: Vec<f32> = dry.iter().skip(1).step_by(2).copied().collect();

    // Compress it by hand, chunk by chunk as the engine does.
    let comp_params = CompressorParams {
        on: true,
        threshold_db: s(-36.0),
        ratio: s(8.0),
        attack_ms: s(0.1),
        release_ms: s(50.0),
        makeup_db: s(0.0),
        sidechain: SidechainSource::Off,
    };
    let mut reference_comp = Compressor::new(s(48_000.0));
    for (cl, cr) in comp_l.chunks_mut(BLOCK).zip(comp_r.chunks_mut(BLOCK)) {
        let mut left: Vec<Single> = cl.iter().map(|x| s(*x)).collect();
        let mut right: Vec<Single> = cr.iter().map(|x| s(*x)).collect();
        reference_comp.process(&mut left, &mut right, None, &comp_params, curve, &mut Pool::new(2, BLOCK));
        for (slot, x) in cl.iter_mut().zip(left) {
            *slot = f(x);
        }
        for (slot, x) in cr.iter_mut().zip(right) {
            *slot = f(x);
        }
    }
    let moved = comp_l
        .iter()
        .zip(dry.iter().step_by(2))
        .fold(0.0f32, |a, (c, d)| a.max((c - d).abs()));
    assert!(moved > 1.0e-3, "the compressor was inaudible; the test is vacuous: {moved:e}");

    let mut ret_l = comp_l.clone();
    let mut ret_r = comp_r.clone();
    let reference_params = Params {
        delay_mix: s(0.5),
        delay_time: s(0.01),
        reverb_mix: s(0.5),
        ..Params::default()
    };
    inserted(&mut ret_l, &mut ret_r, &reference_params);

    let mut wet_engine = preset(|p| {
        p.seq_playing.set(false);
        p.master_gain.set(s(1.0));
        p.synth_send.set(s(1.0));
        p.delay_mix.set(s(0.5));
        p.delay_time.set(s(0.01));
        p.reverb_mix.set(s(0.5));
        p.comp_synth.on.set(true);
        p.comp_synth.threshold_db.set(s(-36.0));
        p.comp_synth.ratio.set(s(8.0));
        p.comp_synth.attack_ms.set(s(0.1));
        p.comp_synth.release_ms.set(s(50.0));
    });
    wet_engine.push(Event::NoteOn { note: 60, velocity: s(0.8) });
    let wet = render_stereo(&mut wet_engine, 4096);

    for (i, sample) in wet.iter().enumerate() {
        let want = if i % 2 == 0 { ret_l[i / 2] } else { ret_r[i / 2] };
        assert!(
            (sample - want).abs() < 1.0e-6,
            "sample {i}: return {sample} vs compressed-then-chained reference {want}"
        );
    }
}

#[test]
fn a_new_studio_has_published_both_lines() {
    let e = rig();
    assert_eq!(e.shared.pattern_len as usize, e.studio.engine.pattern().len());
    assert!(e.shared.read_step(0).active, "the melody's first step always sounds");
    assert!(e.shared.read_bass_step(0).active, "and so does the bass line's");
}

#[test]
fn a_new_sample_rate_keeps_what_waits_and_where_the_engine_stands() {
    let mut e = rig();
    e.push(Event::NoteOn { note: 60, velocity: s(1.0) });
    render(&mut e, BLOCK);
    e.push(Event::ModWheel(s(0.25)));
    e.studio.set_sample_rate(s(96000.0), curve);
    assert_eq!(f(e.studio.engine.sample_rate()), 96000.0);
    assert_eq!(f(e.studio.engine.clock.sample_rate), 96000.0);
    assert!(!e.studio.engine.clock.tick_estimate_valid);
    assert_eq!(e.studio.engine.voices.iter().filter(|v| v.is_held()).count(), 1);
    render(&mut e, BLOCK);
    assert_eq!(f(e.shared.mod_wheel.get()), 0.25);
}

/// What a chunk needs a buffer for it takes from the pool and gives back: however long the
/// studio plays, no buffer is made, lost or grown.
#[test]
fn rendering_makes_do_with_the_buffers_it_has() {
    let mut p = Params::default();
    p.seq_playing = true;
    p.bass_enabled = true;
    p.drum_enabled = true;
    p.reverb_mix = s(0.3);
    p.delay_mix = s(0.3);
    p.comp_synth.on = true;
    p.comp_synth.sidechain = SidechainSource::Kick;
    p.comp_bass.on = true;
    p.comp_bass.sidechain = SidechainSource::DrumBus;
    p.comp_master.on = true;
    p.comp_master.sidechain = SidechainSource::Kick;
    let mut e = rig_with(&p);
    e.push(Event::SetDrumCell { step: 0, pad: 0, cell: Cell { active: true, velocity: s(1.0) } });
    let mut out = Vec::with_capacity(2 * 8 * BLOCK);
    let place = out.as_ptr();
    for i in 0..60 {
        e.push(Event::NoteOn { note: 48 + i % 24, velocity: s(1.0) });
        e.push(Event::Regenerate);
        if i % 2 == 0 {
            e.studio.process(&mut e.shared, 8 * BLOCK - 5, &mut out, curve);
        } else {
            e.studio.process_stereo_interleaved(&mut e.shared, 8 * BLOCK, &mut out, curve);
        }
        let kept = if e.studio.drums.is_some() { 5 } else { 0 };
        assert_eq!(e.studio.pool.spare.len() + kept, BUFFERS, "callback {i}");
        assert!(e.studio.pool.spare.iter().all(|b| b.capacity() == BLOCK), "callback {i}");
        assert_eq!(out.as_ptr(), place);
    }
    assert!(e.studio.engine.orders.capacity() >= MAX_ORDERS);
    assert!(peak(&out.iter().map(|x| f(*x)).collect::<Vec<f32>>()) > 0.0);
}

/// The worst that the control side can ask of one callback: as many panics as it handles,
/// in a callback that also stops the transport.
#[test]
fn a_flood_of_panics_finds_room_for_its_orders() {
    let mut shared = SharedParams::from_params(&Params::default());
    let studio = Studio::new(s(48000.0), &mut shared, EventQueue::new(2 * EVENT_BUDGET), curve);
    let mut e = Rig { studio, shared };
    e.shared.seq_playing.set(true);
    render(&mut e, BLOCK);
    let place = e.studio.engine.orders.as_ptr();
    let room = e.studio.engine.orders.capacity();
    for _ in 0..EVENT_BUDGET {
        assert!(e.push(Event::Panic));
    }
    e.shared.seq_playing.set(false);
    e.studio.engine.begin_block(&mut e.shared);
    let orders = e.studio.engine.orders.len();
    assert!(orders >= 41 * EVENT_BUDGET, "{orders} orders");
    assert!(orders <= MAX_ORDERS, "{orders} orders");
    assert_eq!(e.studio.engine.orders.as_ptr(), place);
    assert_eq!(e.studio.engine.orders.capacity(), room);
    // The band carries them out, in a callback without frames too, and the list is the
    // same list.
    let mut out = Vec::new();
    e.studio.process(&mut e.shared, 0, &mut out, curve);
    assert!(out.is_empty());
    assert!(e.studio.engine.orders.is_empty());
    e.push(Event::NoteOn { note: 60, velocity: s(1.0) });
    e.studio.process(&mut e.shared, 0, &mut out, curve);
    assert!(e.studio.engine.orders.is_empty());
    assert!(peak(&render(&mut e, 8 * BLOCK)) > 0.0);
    assert_eq!(e.studio.engine.orders.as_ptr(), place);
    assert_eq!(e.studio.engine.orders.capacity(), room);
}
