use synth_core::delay::NoteDivision;
use synth_core::demo::{apply_section, section, setup_jam, startup, Demo, Jam, DEMOS, FILTER_TOUR, SECTION_COUNT};
use synth_core::event::Event;
use synth_core::filter::SvfMode;
use synth_core::params::{Params, SharedParams, VoiceMode};
use synth_core::presets::{reset, Preset, ALL};
use synth_core::{Scale, Single};

fn s(x: f32) -> Single {
    Single::from_bits(x.to_bits())
}

fn f(x: Single) -> f32 {
    f32::from_bits(x.to_bits())
}

fn named(name: &str) -> Preset {
    *ALL.iter().find(|p| p.name() == name).unwrap()
}

/// Loading a preset must not leave anything from the previous one behind.
#[test]
fn presets_fully_reset_the_patch() {
    let mut params = SharedParams::default();

    // Load the noisiest patch, then the cleanest.
    named("Wind").apply(&mut params);
    assert!(f(params.noise_level.get()) > 0.5);

    named("Sub Bass").apply(&mut params);
    assert_eq!(
        f(params.noise_level.get()),
        0.0,
        "noise leaked from the previous patch"
    );
}

#[test]
fn presets_leave_the_sequencer_alone() {
    let mut params = SharedParams::default();
    params.tempo.set(s(174.0));
    params.gen_root.set(7);
    params.seq_length.set(32);

    for preset in ALL {
        preset.apply(&mut params);
    }

    assert_eq!(f(params.tempo.get()), 174.0);
    assert_eq!(params.gen_root.get(), 7);
    assert_eq!(params.seq_length.get(), 32);
}

#[test]
fn effects_do_not_leak_between_presets() {
    let mut params = SharedParams::from_params(&Params::default());

    // A thoroughly wet patch.
    params.delay_mix.set(s(0.9));
    params.delay_sync.set(true);
    params.delay_time.set(s(1.5));
    params.delay_division.set(NoteDivision::Whole as u32);
    params.delay_feedback.set(s(0.9));
    params.delay_damping.set(s(0.9));
    params.delay_ping_pong.set(true);
    params.reverb_mix.set(s(0.9));
    params.reverb_size.set(s(0.99));
    params.reverb_damping.set(s(0.9));
    params.reverb_predelay.set(s(0.2));
    params.reverb_width.set(s(0.1));

    // Init is the dry one. Loading it must leave nothing behind, or the
    // synth quietly sounds different depending on what you loaded before.
    named("Init").apply(&mut params);

    let defaults = Params::default();
    let after = params.snapshot();
    assert_eq!(after.delay_mix, defaults.delay_mix);
    assert_eq!(after.delay_sync, defaults.delay_sync);
    assert_eq!(after.delay_time, defaults.delay_time);
    assert_eq!(after.delay_division, defaults.delay_division);
    assert_eq!(after.delay_feedback, defaults.delay_feedback);
    assert_eq!(after.delay_damping, defaults.delay_damping);
    assert_eq!(after.delay_ping_pong, defaults.delay_ping_pong);
    assert_eq!(after.reverb_mix, defaults.reverb_mix);
    assert_eq!(after.reverb_size, defaults.reverb_size);
    assert_eq!(after.reverb_damping, defaults.reverb_damping);
    assert_eq!(after.reverb_predelay, defaults.reverb_predelay);
    assert_eq!(after.reverb_width, defaults.reverb_width);
}

#[test]
fn some_presets_use_the_effects() {
    let mut params = SharedParams::from_params(&Params::default());
    let wet = ALL
        .iter()
        .filter(|preset| {
            preset.apply(&mut params);
            let p = params.snapshot();
            f(p.delay_mix) > 0.0 || f(p.reverb_mix) > 0.0
        })
        .count();
    assert!(wet >= 3, "only {wet} presets use the effects");
}

#[test]
fn a_preset_holds_the_settings_it_is_known_for() {
    let mut params = SharedParams::default();
    named("Acid Bass").apply(&mut params);
    let p = params.snapshot();
    assert_eq!(p.voice_mode, VoiceMode::Mono);
    assert!(p.legato);
    assert_eq!(f(p.glide), 0.055);
    assert_eq!(f(p.cutoff), 280.0);
    assert_eq!(f(p.resonance), 0.9);
    assert_eq!(f(p.drive), 2.5);
    for preset in ALL {
        assert!(!preset.description().is_empty());
    }
}

#[test]
fn the_last_preset_loaded_is_the_one_heard() {
    for first in ALL {
        for second in ALL {
            let mut both = SharedParams::default();
            first.apply(&mut both);
            second.apply(&mut both);
            let mut alone = SharedParams::default();
            second.apply(&mut alone);
            assert_eq!(both.cutoff, alone.cutoff);
            assert_eq!(both.osc2_detune, alone.osc2_detune);
            assert_eq!(both.lfo_target, alone.lfo_target);
            assert_eq!(both.reverb_predelay, alone.reverb_predelay);
            assert_eq!(both.voice_mode, alone.voice_mode);
        }
    }
}

#[test]
fn the_demos_start_with_what_they_need() {
    assert_eq!(Demo::AcidBassline.events(), vec![Event::ClockStart]);
    assert_eq!(
        Demo::FilterModes.events(),
        vec![Event::NoteOn { note: 45, velocity: s(1.0) }]
    );
    let notes: Vec<u8> = Demo::FilterSweepChord
        .events()
        .into_iter()
        .map(|e| match e {
            Event::NoteOn { note, velocity } => {
                assert_eq!(f(velocity), 0.9);
                note
            }
            other => panic!("unexpected {other:?}"),
        })
        .collect();
    assert_eq!(notes, vec![48, 55, 60, 63, 67]);
    assert_eq!(FILTER_TOUR[3], SvfMode::Notch);

    let total: u32 = DEMOS.iter().map(|d| d.seconds()).sum();
    assert_eq!(total, 12 + 12 + 8 + 8 + 10);
    assert_eq!(DEMOS[4].name(), "05-pwm-pad");
}

#[test]
fn a_demo_writes_its_patch() {
    let mut params = SharedParams::default();
    Demo::AcidBassline.setup(&mut params);
    let p = params.snapshot();
    assert_eq!(p.voice_mode, VoiceMode::Mono);
    assert_eq!(f(p.tempo), 130.0);
    assert_eq!(p.gen_scale, Scale::MinorPentatonic);
    assert_eq!(f(p.seq_gate), 0.85);
}

#[test]
fn the_jam_moves_on_every_eight_seconds() {
    let mut jam = Jam::default();
    let mut visited = Vec::new();
    for _ in 0..(480 * 5) {
        if let Some(index) = jam.advance() {
            visited.push(index);
        }
    }
    assert_eq!(visited, vec![1, 2, 3, 0, 1]);
    assert_eq!(SECTION_COUNT, 4);

    let mut params = SharedParams::default();
    setup_jam(&mut params);
    apply_section(&mut params, &section(2));
    assert_eq!(params.gen_root.get(), 4);
    assert_eq!(Scale::from_u32(params.gen_scale.get()), Scale::PhrygianDominant);
    assert_eq!(params.gen_seed, 0x51D_0004);
    assert_eq!(params.gen_regenerate, 1);
    assert_eq!(section(2).name, "E phrygian dominant, tense");
}

#[test]
fn a_program_starts_on_a_pluck_in_a_minor() {
    let mut params = SharedParams::default();
    startup(&mut params);
    assert_eq!(params.gen_root.get(), 9);
    assert_eq!(f(params.tempo.get()), 108.0);
    assert_eq!(f(params.seq_swing.get()), 0.12);
    assert_eq!(f(params.amp_sustain.get()), 0.0);
    assert_eq!(params.gen_seed, 0x5EED_1234);
    assert_eq!(params.gen_regenerate, 1);
}

#[test]
fn a_reset_is_the_first_preset() {
    let mut a = SharedParams::from_params(&Params::default());
    let mut b = SharedParams::from_params(&Params::default());
    named("Brass").apply(&mut a);
    named("Glass Bell").apply(&mut b);
    reset(&mut a);
    named("Init").apply(&mut b);
    assert_eq!(f(a.cutoff.get()), f(b.cutoff.get()));
    assert_eq!(a.osc1_wave.get(), b.osc1_wave.get());
    assert_eq!(f(a.reverb_mix.get()), f(b.reverb_mix.get()));
    assert_eq!(f(a.cutoff.get()), 2000.0);
}
