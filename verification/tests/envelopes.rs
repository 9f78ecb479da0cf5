use synth_core::env::{Adsr, AdsrCoefs, AdsrSettings, EnvStage};
use synth_core::Single;

fn s(x: f32) -> Single {
    Single::from_bits(x.to_bits())
}

fn f(x: Single) -> f32 {
    f32::from_bits(x.to_bits())
}

/// One-pole coefficient that walks from 0 to `1 + ratio` in `time` seconds.
fn coef(time: f32, sample_rate: f32, ratio: f32) -> f32 {
    let samples = time * sample_rate;
    if samples <= 0.0 {
        return 0.0;
    }
    (-((1.0 + ratio) / ratio).ln() / samples).exp()
}

fn coefs(settings: &AdsrSettings, sample_rate: f32) -> AdsrCoefs {
    AdsrCoefs {
        attack: s(coef(f(settings.attack), sample_rate, 0.3)),
        decay: s(coef(f(settings.decay), sample_rate, 0.0001)),
        release: s(coef(f(settings.release), sample_rate, 0.0001)),
    }
}

fn env(a: f32, d: f32, sus: f32, r: f32) -> Adsr {
    let settings = AdsrSettings {
        attack: s(a),
        decay: s(d),
        sustain: s(sus),
        release: s(r),
    };
    let mut e = Adsr::new(coefs(&AdsrSettings::default(), 48000.0));
    e.set_settings(settings, coefs(&settings, 48000.0));
    e
}

#[test]
fn runs_through_every_stage() {
    let mut e = env(0.01, 0.01, 0.5, 0.01);
    assert_eq!(e.stage(), EnvStage::Idle);
    e.gate_on(true);
    assert_eq!(e.stage(), EnvStage::Attack);

    // Attack should complete in roughly its stated time.
    let mut n = 0;
    while e.stage() == EnvStage::Attack && n < 48000 {
        e.next();
        n += 1;
    }
    assert!(n < 1000, "attack took {n} samples, expected ~480");

    while e.stage() == EnvStage::Decay {
        e.next();
    }
    assert_eq!(e.stage(), EnvStage::Sustain);
    assert!((f(e.level()) - 0.5).abs() < 0.01);

    e.gate_off();
    let mut n = 0;
    while e.is_active() && n < 48000 {
        e.next();
        n += 1;
    }
    assert!(!e.is_active());
    assert_eq!(f(e.level()), 0.0);
}

#[test]
fn level_never_leaves_unit_range() {
    let mut e = env(0.001, 0.5, 0.8, 1.0);
    e.gate_on(true);
    for i in 0..96000 {
        if i == 48000 {
            e.gate_off();
        }
        let l = f(e.next());
        assert!((0.0..=1.0).contains(&l), "level {l} at sample {i}");
    }
}

#[test]
fn zero_sustain_goes_idle_after_decay() {
    let mut e = env(0.001, 0.05, 0.0, 1.0);
    e.gate_on(true);
    for _ in 0..48000 {
        e.next();
    }
    // Never released, but a zero sustain means the note is over.
    assert_eq!(e.stage(), EnvStage::Idle);
}

#[test]
fn legato_retrigger_keeps_the_level() {
    let mut e = env(0.5, 0.1, 0.5, 0.1);
    e.gate_on(true);
    for _ in 0..12000 {
        e.next();
    }
    let before = f(e.level());
    assert!(before > 0.1);
    e.gate_on(false);
    assert_eq!(f(e.level()), before, "legato retrigger must not reset");
    e.gate_on(true);
    assert_eq!(f(e.level()), 0.0, "hard retrigger must reset");
}

#[test]
fn attack_is_faster_when_set_faster() {
    let time_to_peak = |a: f32| {
        let mut e = env(a, 0.1, 0.5, 0.1);
        e.gate_on(true);
        let mut n = 0;
        while e.stage() == EnvStage::Attack && n < 480_000 {
            e.next();
            n += 1;
        }
        n
    };
    assert!(time_to_peak(0.001) < time_to_peak(0.1));
}

#[test]
fn the_curve_is_the_one_the_hardware_draws() {
    let mut e = env(0.01, 0.02, 0.5, 0.03);
    let (a, d, r) = (
        coef(0.01, 48000.0, 0.3),
        coef(0.02, 48000.0, 0.0001),
        coef(0.03, 48000.0, 0.0001),
    );
    let a_base = (1.0 + 0.3) * (1.0 - a);
    let d_base = (0.5 - 0.0001) * (1.0 - d);
    let r_base = -0.0001 * (1.0 - r);
    e.gate_on(true);
    let mut level = 0.0f32;
    let mut stage = EnvStage::Attack;
    for i in 0..4000 {
        if i == 2000 {
            e.gate_off();
            stage = EnvStage::Release;
        }
        match stage {
            EnvStage::Idle => {}
            EnvStage::Attack => {
                level = a_base + level * a;
                if level >= 1.0 {
                    level = 1.0;
                    stage = EnvStage::Decay;
                }
            }
            EnvStage::Decay => {
                level = d_base + level * d;
                if level <= 0.5 {
                    level = 0.5;
                    stage = EnvStage::Sustain;
                }
            }
            EnvStage::Sustain => level = 0.5,
            EnvStage::Release => {
                level = r_base + level * r;
                if level <= 0.0 {
                    level = 0.0;
                    stage = EnvStage::Idle;
                }
            }
        }
        assert_eq!(f(e.next()), level, "sample {i}");
        assert_eq!(e.stage(), stage, "sample {i}");
    }
}

#[test]
fn a_hard_reset_cuts_and_an_idle_envelope_stays_idle() {
    let mut e = env(0.01, 0.01, 0.5, 0.01);
    e.gate_on(true);
    e.next();
    e.hard_reset();
    assert!(!e.is_active());
    assert_eq!(f(e.level()), 0.0);
    e.gate_off();
    assert_eq!(e.stage(), EnvStage::Idle);
    assert_eq!(f(e.next()), 0.0);
    assert_eq!(f(e.settings().sustain), 0.5);
    assert_eq!(EnvStage::default(), EnvStage::Idle);
}
