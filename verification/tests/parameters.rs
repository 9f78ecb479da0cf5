use synth_core::delay::NoteDivision;
use synth_core::drums::pad::PAD_COUNT;
use synth_core::drums::pattern::{Cell, Column};
use synth_core::osc::Waveform;
use synth_core::params::{
    AtomicBool32, AtomicEnum, AtomicF32, ClockSource, Params, SharedParams, SidechainSource,
    VoiceMode, MAX_VOICES,
};
use synth_core::sequencer::{Pattern, Step, MAX_STEPS};
use synth_core::{Scale, Single};

fn s(x: f32) -> Single {
    Single::from_bits(x.to_bits())
}

fn f(x: Single) -> f32 {
    f32::from_bits(x.to_bits())
}

#[test]
fn snapshot_round_trips_a_patch() {
    let mut p = Params::default();
    p.cutoff = s(3456.0);
    p.resonance = s(0.8);
    p.osc1_wave = Waveform::Pulse;
    p.voice_mode = VoiceMode::Mono;
    p.gen_scale = Scale::Dorian;
    p.synth_gain = s(0.6);
    p.drum_gain = s(1.4);

    let mut shared = SharedParams::default();
    shared.apply(&p);
    let back = shared.snapshot();

    assert_eq!(f(back.synth_gain), 0.6);
    assert_eq!(f(back.drum_gain), 1.4);
    assert_eq!(f(back.cutoff), 3456.0);
    assert_eq!(f(back.resonance), 0.8);
    assert_eq!(back.osc1_wave, Waveform::Pulse);
    assert_eq!(back.voice_mode, VoiceMode::Mono);
    assert_eq!(back.gen_scale, Scale::Dorian);
}

/// The control side is untrusted: a UI bug or a bad patch file must not be
/// able to hand the DSP a negative cutoff or a NaN.
#[test]
fn snapshot_clamps_hostile_values() {
    let mut shared = SharedParams::default();
    shared.cutoff.set(s(-5000.0));
    shared.resonance.set(s(99.0));
    shared.max_voices.set(9999);
    shared.tempo.set(s(0.0));
    shared.synth_gain.set(s(-1.0));
    shared.drum_gain.set(s(f32::INFINITY));

    let p = shared.snapshot();
    assert!(f(p.synth_gain) >= 0.0);
    assert!(f(p.drum_gain) <= 2.0);
    assert!(f(p.cutoff) >= 20.0);
    assert!(f(p.resonance) <= 1.0);
    assert!(p.max_voices <= MAX_VOICES);
    assert!(f(p.tempo) >= 20.0);
}

#[test]
fn no_knob_hands_on_a_nan() {
    let mut shared = SharedParams::default();
    let nan = s(f32::NAN);
    for knob in [
        &mut shared.cutoff,
        &mut shared.osc1_detune,
        &mut shared.lfo_rate,
        &mut shared.amp_attack,
        &mut shared.tempo,
        &mut shared.glide,
        &mut shared.master_gain,
        &mut shared.gen_max_jump,
    ] {
        knob.set(nan);
    }
    let p = shared.snapshot();
    for value in [
        p.cutoff,
        p.osc1_detune,
        p.lfo_rate,
        p.amp_env.attack,
        p.tempo,
        p.glide,
        p.master_gain,
        p.gen_max_jump,
    ] {
        assert!(!value.is_nan());
    }
}

/// The packed mirror must survive a round trip: the UI draws from it, and a
/// note that comes back wrong would show the wrong pattern.
#[test]
fn the_pattern_mirror_round_trips() {
    let mut shared = SharedParams::default();

    for (index, (active, note, velocity, accent)) in [
        (true, 60u8, 1.0f32, true),
        (false, 0, 0.0, false),
        (true, 127, 0.5, false),
        (true, 36, 0.75, true),
    ]
    .into_iter()
    .enumerate()
    {
        let step = Step {
            active,
            note,
            velocity: s(velocity),
            accent,
            slide: accent,
        };
        shared.publish_step(index, &step);
        let back = shared.read_step(index);

        assert_eq!(back.active, active);
        assert_eq!(back.note, note);
        assert_eq!(back.accent, accent);
        assert_eq!(back.slide, accent);
        // Velocity is quantised to 8 bits on the way through.
        assert!((f(back.velocity) - velocity).abs() < 1.0 / 255.0 + 1e-6);
    }
}

#[test]
fn read_pattern_reports_the_published_length_not_the_knob() {
    let mut shared = SharedParams::default();

    shared.publish_len(8);
    assert_eq!(shared.read_pattern().len(), 8);
    shared.publish_len(64);
    assert_eq!(shared.read_pattern().len(), 64);

    // The knob is not the authority. It can promise more steps than the
    // engine has published, and a read that believed it would hand back
    // slots that were never written -- silence, saved into a slot as if
    // it were music.
    shared.seq_length.set(64);
    shared.publish_len(8);
    assert_eq!(shared.read_pattern().len(), 8);

    // Out of range indices must be inert rather than panicking.
    shared.publish_step(9999, &Step::default());
    assert!(!shared.read_step(9999).active);
}

/// The staging array is how a pattern saved on the control side reaches the
/// audio thread. A step that came back wrong would play the wrong melody.
#[test]
fn a_staged_pattern_round_trips() {
    let mut shared = SharedParams::default();

    let mut steps = [Step::default(); MAX_STEPS];
    steps[0] = Step {
        active: true,
        note: 60,
        velocity: s(1.0),
        accent: true,
        slide: false,
    };
    steps[3] = Step {
        active: true,
        note: 67,
        velocity: s(0.5),
        accent: false,
        slide: false,
    };
    shared.queue_pattern(&Pattern::new(steps, 8));

    let back = shared.read_pending_pattern();
    assert_eq!(back.len(), 8);
    let back = back.as_slice();
    assert!(back[0].active && back[0].accent);
    assert_eq!(back[0].note, 60);
    assert_eq!(back[3].note, 67);
    assert!((f(back[3].velocity) - 0.5).abs() < 1.0 / 255.0 + 1e-6);
    assert!(!back[1].active);
}

/// The counter is bumped last, after every step is in place, so the audio
/// thread cannot adopt a pattern it caught halfway through being written.
/// A counter rather than a flag, so two loads in one frame cannot collapse
/// into one.
#[test]
fn staging_a_pattern_bumps_the_request_counter() {
    let mut shared = SharedParams::default();
    let before = shared.pending_request;
    let blank = Pattern::new([Step::default(); MAX_STEPS], 0);
    shared.queue_pattern(&blank);
    shared.queue_pattern(&blank);
    assert_eq!(shared.pending_request - before, 2);
}

#[test]
fn atomic_f32_round_trips() {
    let mut a = AtomicF32::new(s(0.0));
    for v in [-1.5f32, 0.0, 1.0, 12345.678, f32::MIN, f32::MAX] {
        a.set(s(v));
        assert_eq!(f(a.get()), v);
    }
}

#[test]
fn switches_and_choices_round_trip() {
    let mut b = AtomicBool32::new(false);
    assert!(!b.get());
    b.set(true);
    assert!(b.get());
    let mut e = AtomicEnum::new(3);
    assert_eq!(e.get(), 3);
    e.set(u32::MAX);
    assert_eq!(e.get(), u32::MAX);
}

#[test]
fn the_effects_default_to_silent() {
    let params = Params::default();
    // A patch nobody has touched must sound exactly as it did before the
    // effects existed. Zero mix on both is what guarantees that.
    assert_eq!(f(params.delay_mix), 0.0);
    assert_eq!(f(params.reverb_mix), 0.0);
}

#[test]
fn effect_parameters_survive_a_round_trip() {
    let mut params = Params::default();
    params.delay_mix = s(0.4);
    params.delay_sync = true;
    params.delay_time = s(0.25);
    params.delay_division = NoteDivision::QuarterDot;
    params.delay_feedback = s(0.6);
    params.delay_damping = s(0.7);
    params.delay_ping_pong = true;
    params.reverb_mix = s(0.3);
    params.reverb_size = s(0.9);
    params.reverb_damping = s(0.2);
    params.reverb_predelay = s(0.05);
    params.reverb_width = s(0.8);

    let shared = SharedParams::from_params(&params);
    let back = shared.snapshot();

    assert_eq!(f(back.delay_mix), 0.4);
    assert!(back.delay_sync);
    assert_eq!(f(back.delay_time), 0.25);
    assert_eq!(back.delay_division, NoteDivision::QuarterDot);
    assert_eq!(f(back.delay_feedback), 0.6);
    assert_eq!(f(back.delay_damping), 0.7);
    assert!(back.delay_ping_pong);
    assert_eq!(f(back.reverb_mix), 0.3);
    assert_eq!(f(back.reverb_size), 0.9);
    assert_eq!(f(back.reverb_damping), 0.2);
    assert_eq!(f(back.reverb_predelay), 0.05);
    assert_eq!(f(back.reverb_width), 0.8);

    // `apply` writes back into the same words.
    let mut blank = SharedParams::from_params(&Params::default());
    blank.apply(&params);
    assert_eq!(f(blank.snapshot().delay_feedback), 0.6);
    assert_eq!(f(blank.snapshot().reverb_size), 0.9);
}

#[test]
fn effect_parameters_are_clamped_on_the_way_out() {
    let mut shared = SharedParams::from_params(&Params::default());
    shared.delay_mix.set(s(9.0));
    shared.delay_time.set(s(-1.0));
    shared.delay_feedback.set(s(2.0));
    shared.delay_damping.set(s(-0.5));
    shared.reverb_mix.set(s(f32::NAN));
    shared.reverb_size.set(s(50.0));
    shared.reverb_predelay.set(s(10.0));
    shared.reverb_width.set(s(-3.0));

    let params = shared.snapshot();
    assert_eq!(f(params.delay_mix), 1.0);
    assert_eq!(f(params.delay_time), 0.001);
    // Strictly below 1.0: at 1.0 the feedback loop never decays.
    assert!(f(params.delay_feedback) <= 0.95);
    assert_eq!(f(params.delay_damping), 0.0);
    assert!(f(params.reverb_mix).is_finite());
    assert_eq!(f(params.reverb_size), 1.0);
    assert_eq!(f(params.reverb_predelay), 0.25);
    assert_eq!(f(params.reverb_width), 0.0);
}

/// The drum knobs have to survive the trip out to the atomics and back,
/// and nonsense has to be clamped on the way: `snapshot` is the only thing
/// standing between a bad value and the audio thread.
#[test]
fn drum_params_round_trip_and_clamp() {
    let mut shared = SharedParams::default();
    assert!(!shared.snapshot().drum_enabled);

    shared.drum_enabled.set(true);
    shared.drum_level.set(s(4.0));
    shared.drum_length.set(999);
    shared.pad_tune[2].set(s(-90.0));
    shared.pad_decay[2].set(s(0.0));
    shared.pad_mute[5].set(true);

    let p = shared.snapshot();
    assert!(p.drum_enabled);
    assert_eq!(f(p.drum_level), 1.0);
    assert_eq!(p.drum_length, MAX_STEPS);
    assert_eq!(f(p.pad_tune[2]), -12.0);
    assert_eq!(f(p.pad_decay[2]), 0.25);
    assert!(p.pad_mute[5]);
    assert!(!p.pad_mute[0]);

    // And back out again, which is what loading a patch does.
    let mut restored = SharedParams::default();
    restored.apply(&p);
    assert!(restored.snapshot().pad_mute[5]);
}

/// The grid mirror is how the UI sees what the audio thread is playing.
#[test]
fn the_drum_mirror_round_trips_a_column() {
    let mut shared = SharedParams::default();
    let mut column: Column = [Cell::default(); PAD_COUNT];
    column[1] = Cell {
        active: true,
        velocity: s(1.0),
    };

    shared.publish_drum_column(3, &column);
    shared.publish_drum_len(16);

    let grid = shared.read_drum_grid();
    assert_eq!(grid.len(), 16);
    assert!(grid.get(3, 1).active);
    assert!(!grid.get(3, 0).active);
    assert!(!grid.get(4, 1).active);
    assert!(shared.read_drum_column(3)[1].active);
    assert_eq!(shared.read_drum_column(9999)[1], Cell::default());
}

#[test]
fn the_new_bus_params_default_to_todays_routing() {
    let p = Params::default();
    // Today's engine sends the synth through the effects and keeps drums
    // out of them. These two defaults are what reproduce that.
    assert_eq!(f(p.synth_send), 1.0);
    assert_eq!(f(p.drum_send), 0.0);
    assert_eq!(p.pad_pan, [s(0.0); PAD_COUNT]);
    assert_eq!(p.pad_send, [s(1.0); PAD_COUNT]);
}

#[test]
fn bus_params_round_trip_and_clamp() {
    let mut p = Params::default();
    p.synth_send = s(0.25);
    p.drum_send = s(0.5);
    p.pad_pan[2] = s(-1.0);
    p.pad_send[3] = s(0.125);

    let mut shared = SharedParams::default();
    shared.apply(&p);
    let back = shared.snapshot();

    assert_eq!(f(back.synth_send), 0.25);
    assert_eq!(f(back.drum_send), 0.5);
    assert_eq!(f(back.pad_pan[2]), -1.0);
    assert_eq!(f(back.pad_send[3]), 0.125);

    // Hostile values from the control side are clamped, not trusted.
    shared.synth_send.set(s(9.0));
    shared.drum_send.set(s(f32::NAN));
    shared.pad_pan[0].set(s(-4.0));
    shared.pad_send[0].set(s(2.0));
    let back = shared.snapshot();
    assert_eq!(f(back.synth_send), 1.0);
    assert_eq!(f(back.drum_send), 0.0);
    assert_eq!(f(back.pad_pan[0]), -1.0);
    assert_eq!(f(back.pad_send[0]), 1.0);
}

#[test]
fn compressor_params_default_to_bypassed() {
    let p = Params::default();
    for c in [p.comp_synth, p.comp_master] {
        assert!(!c.on);
        assert_eq!(f(c.threshold_db), -12.0);
        assert_eq!(f(c.ratio), 4.0);
        assert_eq!(f(c.attack_ms), 10.0);
        assert_eq!(f(c.release_ms), 100.0);
        assert_eq!(f(c.makeup_db), 0.0);
        assert_eq!(c.sidechain, SidechainSource::Off);
    }
}

#[test]
fn compressor_params_round_trip_and_clamp() {
    let mut p = Params::default();
    p.comp_synth.on = true;
    p.comp_synth.threshold_db = s(-24.0);
    p.comp_synth.sidechain = SidechainSource::Kick;
    p.comp_master.ratio = s(2.0);

    let mut shared = SharedParams::default();
    shared.apply(&p);
    let back = shared.snapshot();

    assert!(back.comp_synth.on);
    assert_eq!(f(back.comp_synth.threshold_db), -24.0);
    assert_eq!(back.comp_synth.sidechain, SidechainSource::Kick);
    assert_eq!(f(back.comp_master.ratio), 2.0);
    // The master is untouched by the synth compressor's settings.
    assert!(!back.comp_master.on);

    shared.comp_synth.threshold_db.set(s(12.0));
    shared.comp_synth.ratio.set(s(f32::NAN));
    shared.comp_master.attack_ms.set(s(0.0));
    shared.comp_master.release_ms.set(s(9999.0));
    let back = shared.snapshot();
    assert_eq!(f(back.comp_synth.threshold_db), 0.0);
    assert_eq!(f(back.comp_synth.ratio), 4.0);
    assert_eq!(f(back.comp_master.attack_ms), 0.1);
    assert_eq!(f(back.comp_master.release_ms), 1000.0);
}

#[test]
fn reading_the_peak_resets_it() {
    let mut shared = SharedParams::default();
    shared.output_peak.set(s(0.7));
    assert_eq!(f(shared.take_peak()), 0.7);
    assert_eq!(f(shared.take_peak()), 0.0);
}

#[test]
fn every_choice_falls_back_rather_than_panicking() {
    assert_eq!(ClockSource::from_u32(99), ClockSource::default());
    assert_eq!(SidechainSource::from_u32(99), SidechainSource::default());
    assert_eq!(VoiceMode::from_u32(99), VoiceMode::default());
    for (n, source) in SidechainSource::ALL.into_iter().enumerate() {
        assert_eq!(SidechainSource::from_u32(n as u32), source);
        assert!(!source.name().is_empty());
    }
    assert_eq!(VoiceMode::from_u32(0), VoiceMode::Mono);
    assert!(!VoiceMode::Mono.name().is_empty());
}

#[test]
fn a_regeneration_is_asked_for_by_counting() {
    let mut shared = SharedParams::default();
    shared.regenerate();
    shared.regenerate();
    assert_eq!(shared.gen_regenerate, 2);
    shared.gen_regenerate = u32::MAX;
    shared.regenerate();
    assert_eq!(shared.gen_regenerate, 0);
}

#[test]
fn a_velocity_comes_back_within_a_255th() {
    let mut params = SharedParams::default();
    for i in 0..=1000u32 {
        let v = i as f32 / 1000.0;
        let step = Step { active: true, note: 60, velocity: s(v), accent: false, slide: false };
        params.publish_step(3, &step);
        let back = f(params.read_step(3).velocity);
        assert!((back - v).abs() <= 1.0 / 255.0 + 1e-6, "{v} came back as {back}");

        params.queue_pattern(&Pattern::new([step; MAX_STEPS], 16));
        let staged = f(params.read_pending_pattern().steps[15].velocity);
        assert!((staged - v).abs() <= 1.0 / 255.0 + 1e-6, "{v} was staged as {staged}");
    }
    assert_eq!(params.read_step(MAX_STEPS), Step::default());
    assert_eq!(params.read_step(usize::MAX), Step::default());
}
