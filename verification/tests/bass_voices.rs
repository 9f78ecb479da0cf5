use synth_core::bass::{BassSettings, BassVoice as Bass};
use synth_core::curve::Curve;
use synth_core::env::{AdsrCoefs, AdsrSettings};
use synth_core::note::midi_to_hz;
use synth_core::params::BassParams;
use synth_core::pool::Pool;
use synth_core::Single;

fn s(x: f32) -> Single {
    Single::from_bits(x.to_bits())
}

fn f(x: Single) -> f32 {
    f32::from_bits(x.to_bits())
}

fn curve(c: Curve, x: Single) -> Single {
    let x = f(x);
    s(match c {
        Curve::Sine => x.sin(),
        Curve::Cosine => x.cos(),
        Curve::Tangent => x.tan(),
        Curve::Exponential => x.exp(),
        Curve::TwoTo => x.exp2(),
        Curve::TenTo => 10.0f32.powf(x),
        Curve::Logarithm => x.ln(),
        Curve::BinaryLogarithm => x.log2(),
        Curve::DecimalLogarithm => x.log10(),
        Curve::SquareRoot => x.sqrt(),
        Curve::Power(base) => f(base).powf(x),
    })
}

/// A bass that plays to plain numbers.
struct BassVoice(Bass);

impl BassVoice {
    fn new(sr: f32, seed: u64) -> Self {
        let amp = AdsrSettings {
            attack: s(0.003),
            decay: s(0.0),
            sustain: s(1.0),
            release: s(0.008),
        };
        let mut voice = Bass::new(
            s(sr),
            seed,
            AdsrCoefs::from_times(curve, &amp, s(sr)),
            AdsrCoefs::from_times(curve, &AdsrSettings::default(), s(sr)),
            s(0.0),
            midi_to_hz(s(40.0), curve),
        );
        voice.filter.tune_to(s(1000.0), s(0.0), curve);
        BassVoice(voice)
    }

    fn is_active(&self) -> bool {
        self.0.is_active()
    }

    fn note_on(&mut self, note: u8, accent: bool, slide: bool) {
        self.0.note_on(note, accent, slide);
    }

    fn silence(&mut self) {
        self.0.silence();
    }

    fn filter_env_level(&self) -> f32 {
        f(self.0.filter_env_level())
    }

    fn current_hz(&self) -> f32 {
        f(self.0.current_hz())
    }

    fn process_block(&mut self, out: &mut [f32], p: &BassParams) {
        let block = self.0.process_block(out.len(), p, curve, &mut Pool::new(1, out.len()));
        for (x, y) in out.iter_mut().zip(block) {
            *x = f(y);
        }
    }
}

const SR: f32 = 48_000.0;

/// Renders `seconds` of audio and hands back the peak absolute sample.
fn peak(v: &mut BassVoice, p: &BassParams, seconds: f32) -> f32 {
    let mut block = [0.0f32; 64];
    let blocks = (seconds * SR / 64.0) as usize;
    let mut worst = 0.0f32;
    for _ in 0..blocks {
        v.process_block(&mut block, p);
        for s in block {
            assert!(s.is_finite(), "the bass produced a non-finite sample");
            worst = worst.max(s.abs());
        }
    }
    worst
}

#[test]
fn a_gated_note_makes_sound_and_silence_stops_it() {
    let mut v = BassVoice::new(SR, 0xB455_0001);
    let p = BassParams::default();
    assert!(!v.is_active(), "a fresh voice is silent");

    v.note_on(40, false, false);
    assert!(v.is_active());
    assert!(peak(&mut v, &p, 0.05) > 0.01, "a gated note should sound");

    v.silence();
    assert!(!v.is_active());
    assert!(peak(&mut v, &p, 0.05) < 1e-6, "silence must be silent");
}

#[test]
fn the_filter_envelope_decays_to_zero_while_the_gate_is_held() {
    // Sustain is zero by design: the cutoff sweep is the instrument, and
    // it has to finish even on a long note.
    let mut v = BassVoice::new(SR, 0xB455_0002);
    let p = BassParams { decay: s(0.05), ..BassParams::default() };
    v.note_on(40, false, false);
    let mut block = [0.0f32; 64];
    for _ in 0..(0.4 * SR / 64.0) as usize {
        v.process_block(&mut block, &p);
    }
    assert!(
        v.filter_env_level() < 0.01,
        "the filter envelope should be spent while the key is still down"
    );
    assert!(v.is_active(), "the amp envelope is still holding the note");
}

#[test]
fn env_mod_opens_the_filter() {
    // More envelope depth means more high-frequency energy early in the
    // note, which shows up as a bigger peak through a resonant lowpass.
    let mut closed = BassVoice::new(SR, 0xB455_0003);
    let mut open = BassVoice::new(SR, 0xB455_0003);
    let shut = BassParams { env_mod: s(0.0), cutoff: s(120.0), ..BassParams::default() };
    let wide = BassParams { env_mod: s(5.0), cutoff: s(120.0), ..BassParams::default() };
    closed.note_on(40, false, false);
    open.note_on(40, false, false);
    let a = peak(&mut closed, &shut, 0.1);
    let b = peak(&mut open, &wide, 0.1);
    assert!(b > a * 1.5, "env_mod 5.0 ({b}) should be far brighter than 0.0 ({a})");
}

#[test]
fn tune_transposes_the_note() {
    let mut v = BassVoice::new(SR, 0xB455_0004);
    v.note_on(45, false, false);
    let plain = BassParams { tune: s(0.0), ..BassParams::default() };
    let up = BassParams { tune: s(12.0), ..BassParams::default() };
    let mut block = [0.0f32; 64];
    v.process_block(&mut block, &plain);
    let low = v.current_hz();
    v.process_block(&mut block, &up);
    let high = v.current_hz();
    assert!(
        (high / low - 2.0).abs() < 0.01,
        "twelve semitones should double the frequency: {low} -> {high}"
    );
}

#[test]
fn nonsense_parameters_never_produce_nonsense_audio() {
    // `BassParams` reaching `process_block` has already been through
    // `SharedBass::snapshot`, but the voice is a public type and must not
    // rely on that.
    let mut v = BassVoice::new(SR, 0xB455_0005);
    let p = BassParams {
        cutoff: s(f32::NAN),
        resonance: s(f32::NAN),
        env_mod: s(f32::NAN),
        tune: s(f32::NAN),
        ..BassParams::default()
    };
    v.note_on(40, false, false);
    let mut block = [0.0f32; 64];
    for _ in 0..200 {
        v.process_block(&mut block, &p);
        for s in block {
            assert!(s.is_finite(), "NaN parameters leaked into the audio");
        }
    }
}

#[test]
fn an_absurd_tune_cannot_run_the_pitch_away() {
    let p = BassParams { tune: s(1e30), ..BassParams::default() };
    let mut v = BassVoice::new(SR, 0xB455_0006);
    v.note_on(40, false, false);
    // `peak` already asserts every sample is finite.
    let _ = peak(&mut v, &p, 0.05);
    assert!(
        v.current_hz().is_finite() && v.current_hz() <= f(midi_to_hz(s(52.0), curve)),
        "tune must be bounded to +/-12 semitones, got {} Hz",
        v.current_hz()
    );
}

#[test]
fn an_accent_is_latched_when_the_note_starts() {
    let mut v = BassVoice::new(SR, 1);
    v.note_on(40, true, false);
    assert!(v.0.accented && v.0.gate);
    assert_eq!(v.0.note, 40);
    v.0.note_off();
    assert!(v.0.accented && !v.0.gate);
    v.note_on(43, false, true);
    assert!(!v.0.accented);
    assert_eq!(f(v.0.pitch), 43.0);
}

#[test]
fn settings_that_are_no_numbers_give_the_usual_ones() {
    let p = BassParams {
        tune: s(f32::NAN),
        cutoff: s(f32::INFINITY),
        resonance: s(f32::NEG_INFINITY),
        env_mod: s(9.0),
        decay: s(-1.0),
        ..BassParams::default()
    };
    let set = BassSettings::from_params(&p);
    assert_eq!(f(set.tune), 0.0);
    assert_eq!(f(set.cutoff), 300.0);
    assert_eq!(f(set.resonance), 0.7);
    assert_eq!(f(set.env_mod), 6.0);
    assert_eq!(f(set.decay), 0.02);
}
