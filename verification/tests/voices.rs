use synth_core::env::EnvStage;
use synth_core::filter::{Slope, SvfMode};
use synth_core::lfo::{LfoTarget, LfoWave};
use synth_core::osc::Waveform;
use synth_core::voice::Voice;
use synth_core::Single;

fn s(x: f32) -> Single {
    Single::from_bits(x.to_bits())
}

#[test]
fn a_voice_is_idle_until_a_note_arrives() {
    let mut v = Voice::new();
    assert!(!v.is_active() && !v.is_held());
    v.note_on(60, s(3.0), 7);
    assert!(v.is_active() && v.is_held());
    assert_eq!((v.note, v.age), (60, 7));
    assert_eq!(v.velocity, s(1.0));
}

#[test]
fn a_released_voice_rings_on() {
    let mut v = Voice::new();
    v.note_on(60, s(1.0), 1);
    v.observe(EnvStage::Sustain, s(0.6));
    v.note_off();
    assert!(v.is_active() && !v.is_held());
    assert_eq!(v.level(), s(0.6));
    v.observe(EnvStage::Idle, s(0.0));
    assert!(!v.is_active());
}

#[test]
fn a_stolen_voice_fades_before_it_plays() {
    let mut v = Voice::new();
    v.note_on(60, s(1.0), 1);
    v.steal(67, s(0.5), 2);
    assert_eq!(v.note, 60);
    v.finish_steal();
    assert_eq!((v.note, v.age), (67, 2));
    assert_eq!(v.velocity, s(0.5));
    assert!(v.is_held() && v.steal_fade.is_none());

    // A free voice has nothing to fade.
    let mut free = Voice::new();
    free.steal(50, s(0.25), 9);
    assert_eq!(free.note, 50);
    assert!(free.is_held());
}

#[test]
fn a_killed_voice_is_silent_at_once() {
    let mut v = Voice::new();
    v.note_on(60, s(1.0), 1);
    v.steal(61, s(1.0), 2);
    v.kill();
    assert!(!v.is_active());
    assert_eq!(v.level(), s(0.0));
    v.set_target_note(40);
    assert_eq!(v.note, 40);
}

#[test]
fn every_selector_round_trips_and_falls_back() {
    for (n, w) in Waveform::ALL.into_iter().enumerate() {
        assert_eq!((w.to_u32(), Waveform::from_u32(n as u32)), (n as u32, w));
        assert!(!w.name().is_empty());
    }
    for (n, m) in SvfMode::ALL.into_iter().enumerate() {
        assert_eq!((m.to_u32(), SvfMode::from_u32(n as u32)), (n as u32, m));
        assert!(!m.name().is_empty());
    }
    for (n, w) in LfoWave::ALL.into_iter().enumerate() {
        assert_eq!((w.to_u32(), LfoWave::from_u32(n as u32)), (n as u32, w));
        assert!(!w.name().is_empty());
    }
    for (n, t) in LfoTarget::ALL.into_iter().enumerate() {
        assert_eq!((t.to_u32(), LfoTarget::from_u32(n as u32)), (n as u32, t));
        assert!(!t.name().is_empty());
    }
    assert_eq!(Slope::from_u32(0), Slope::Db12);
    assert_eq!(Slope::from_u32(1), Slope::Db24);
    assert_eq!(Waveform::from_u32(999), Waveform::Saw);
}
