use synth_core::clock::BLOCK;
use synth_core::curve::Curve;
use synth_core::env::{AdsrCoefs, AdsrSettings};
use synth_core::lfo::LfoTarget;
use synth_core::note::{cents_to_ratio, hz_to_midi, midi_to_hz, Note};
use synth_core::order::Order;
use synth_core::osc::Waveform;
use synth_core::params::Params;
use synth_core::tone::{Modulation, Tone};
use synth_core::voice::Voice as Seat;
use synth_core::Single;

fn s(x: f32) -> Single {
    Single::from_bits(x.to_bits())
}

fn f(x: Single) -> f32 {
    f32::from_bits(x.to_bits())
}

fn curve(c: Curve, x: Single) -> Single {
    let x = f(x);
    s(match c {
        Curve::Sine => x.sin(),
        Curve::Cosine => x.cos(),
        Curve::Tangent => x.tan(),
        Curve::Exponential => x.exp(),
        Curve::TwoTo => x.exp2(),
        Curve::TenTo => 10.0f32.powf(x),
        Curve::Logarithm => x.ln(),
        Curve::BinaryLogarithm => x.log2(),
        Curve::DecimalLogarithm => x.log10(),
        Curve::SquareRoot => x.sqrt(),
        Curve::Power(base) => f(base).powf(x),
    })
}

/// A voice and its seat.
struct Voice {
    tone: Tone,
    seat: Seat,
}

impl Voice {
    fn new(sr: f32, seed: u64) -> Self {
        let coefs = AdsrCoefs::from_times(curve, &AdsrSettings::default(), s(sr));
        let mut tone = Tone::new(s(sr), seed, coefs, s(0.0));
        tone.filter.tune_to(s(1000.0), s(0.0), curve);
        Voice { tone, seat: Seat::new() }
    }

    fn is_active(&self) -> bool {
        self.tone.is_active()
    }

    fn pitch(&self) -> f32 {
        f(self.tone.pitch)
    }

    fn note_on(&mut self, note: u8, velocity: f32, from: Option<f32>, reset: bool, age: u64) {
        self.seat.note_on(note, s(velocity), age);
        self.tone.start(note, s(velocity), from.map(s), reset);
    }

    fn note_off(&mut self) {
        self.seat.note_off();
        self.tone.obey(Order::ReleaseVoice { voice: 0 });
    }

    fn steal(&mut self, note: u8, velocity: f32, age: u64) {
        self.seat.steal(note, s(velocity), age);
        self.tone.obey(Order::StealVoice { voice: 0, note, velocity: s(velocity) });
    }

    fn set_target_note(&mut self, note: u8) {
        self.seat.set_target_note(note);
        self.tone.set_target_note(note);
    }

    fn process_block(&mut self, out: &mut [f32], p: &Params, lfo: f32, depth: f32) {
        let m = Modulation::route(p, s(lfo), s(depth));
        let mut block: Vec<Single> = out.iter().map(|x| s(*x)).collect();
        self.tone.process_block(&mut self.seat, &mut block, p, &m, curve);
        for (x, y) in out.iter_mut().zip(block) {
            *x = f(y);
        }
        assert_eq!(self.seat.is_active(), self.tone.is_active());
        assert_eq!(self.seat.level(), self.tone.amp_env.level());
    }
}

fn render(voice: &mut Voice, p: &Params, blocks: usize) -> Vec<f32> {
    let mut out = Vec::new();
    let mut block = [0.0f32; BLOCK];
    for _ in 0..blocks {
        block.fill(0.0);
        voice.process_block(&mut block, p, 0.0, 0.0);
        out.extend_from_slice(&block);
    }
    out
}

#[test]
fn silent_until_a_note_arrives() {
    let mut v = Voice::new(48000.0, 0);
    let p = Params::default();
    assert!(!v.is_active());
    let out = render(&mut v, &p, 100);
    assert!(out.iter().all(|&s| s == 0.0));
}

#[test]
fn makes_sound_after_note_on() {
    let mut v = Voice::new(48000.0, 0);
    let p = Params::default();
    v.note_on(60, 1.0, None, true, 1);
    let out = render(&mut v, &p, 200);
    let peak = out.iter().fold(0.0f32, |a, &b| a.max(b.abs()));
    assert!(peak > 0.05, "voice was near-silent, peak {peak}");
    assert!(out.iter().all(|s| s.is_finite()));
}

#[test]
fn goes_quiet_after_release() {
    let mut v = Voice::new(48000.0, 0);
    let mut p = Params::default();
    p.amp_env.release = s(0.05);
    v.note_on(60, 1.0, None, true, 1);
    render(&mut v, &p, 200);
    v.note_off();
    // Release is 50 ms; give it a generous margin.
    render(&mut v, &p, 1000);
    assert!(!v.is_active(), "voice never finished releasing");
}

#[test]
fn output_stays_finite_across_every_waveform_and_note() {
    for wave in Waveform::ALL {
        let mut p = Params::default();
        p.osc1_wave = wave;
        p.osc2_wave = wave;
        p.resonance = s(0.95);
        for note in [24u8, 60, 100, 127] {
            let mut v = Voice::new(48000.0, note as u64);
            v.note_on(note, 1.0, None, true, 1);
            let out = render(&mut v, &p, 300);
            for (i, s) in out.iter().enumerate() {
                assert!(s.is_finite(), "{wave:?} note {note} sample {i} = {s}");
                assert!(s.abs() < 20.0, "{wave:?} note {note} peaked at {s}");
            }
        }
    }
}

#[test]
fn glide_slides_between_pitches() {
    let mut v = Voice::new(48000.0, 0);
    let mut p = Params::default();
    p.glide = s(0.2);
    v.note_on(48, 1.0, None, true, 1);
    render(&mut v, &p, 10);
    v.set_target_note(72);
    // Immediately after retargeting, the pitch should still be near the old
    // note, not snapped to the new one.
    render(&mut v, &p, 2);
    assert!(v.pitch() < 55.0, "glide snapped instantly to {}", v.pitch());
    render(&mut v, &p, 2000);
    assert!((v.pitch() - 72.0).abs() < 0.5, "glide never arrived: {}", v.pitch());
}

/// Stealing must not produce a discontinuity. We check that no
/// sample-to-sample jump exceeds what the waveform itself can produce.
#[test]
fn stealing_does_not_click() {
    let mut v = Voice::new(48000.0, 0);
    let mut p = Params::default();
    p.osc1_wave = Waveform::Sine;
    p.osc2_level = s(0.0);
    p.resonance = s(0.0);
    p.cutoff = s(18000.0);

    v.note_on(60, 1.0, None, true, 1);
    let before = render(&mut v, &p, 100);
    v.steal(67, 1.0, 2);
    let after = render(&mut v, &p, 100);

    let all: Vec<f32> = before.iter().chain(after.iter()).copied().collect();
    let mut worst: f32 = 0.0;
    for w in all.windows(2) {
        worst = worst.max((w[1] - w[0]).abs());
    }
    // A 60-100 Hz sine at this amplitude moves far less than this per
    // sample; a hard cut would jump by the full amplitude at once.
    assert!(worst < 0.1, "steal produced a jump of {worst}");
}

#[test]
fn velocity_scales_output() {
    let peak_at = |vel: f32| {
        let mut v = Voice::new(48000.0, 0);
        let p = Params::default();
        v.note_on(60, vel, None, true, 1);
        render(&mut v, &p, 200)
            .iter()
            .fold(0.0f32, |a, &b| a.max(b.abs()))
    };
    assert!(peak_at(1.0) > peak_at(0.3) * 2.0);
}

#[test]
fn modulation_reaches_only_its_target() {
    let mut p = Params::default();
    p.pulse_width = s(0.4);
    for target in LfoTarget::ALL {
        p.lfo_target = target;
        let m = Modulation::route(&p, s(0.5), s(0.5));
        let cutoff = if target == LfoTarget::Cutoff { 1.0 } else { 0.0 };
        let pitch = if target == LfoTarget::Pitch { 3.0 } else { 0.0 };
        let amp = if target == LfoTarget::Amplitude { 0.875 } else { 1.0 };
        let width = if target == LfoTarget::PulseWidth { 0.4f32 + 0.25 * 0.45 } else { 0.4 };
        assert_eq!(f(m.cutoff), cutoff);
        assert_eq!(f(m.pitch), pitch);
        assert_eq!(f(m.amp), amp);
        assert_eq!(f(m.pulse_width), width);
    }
}

#[test]
fn a_cut_voice_is_silent_at_once() {
    let mut v = Voice::new(48000.0, 0);
    let p = Params::default();
    v.note_on(60, 1.0, None, true, 1);
    render(&mut v, &p, 20);
    v.seat.kill();
    v.tone.obey(Order::KillVoice { voice: 0 });
    assert!(!v.is_active());
    assert!(render(&mut v, &p, 4).iter().all(|x| *x == 0.0));
}

#[test]
fn a4_is_440() {
    assert!((f(midi_to_hz(s(69.0), curve)) - 440.0).abs() < 0.001);
    assert_eq!(Note::new(69, s(1.0)).hz(curve), midi_to_hz(s(69.0), curve));
}

#[test]
fn an_octave_doubles() {
    assert!((f(midi_to_hz(s(81.0), curve)) - 880.0).abs() < 0.001);
    assert!((f(midi_to_hz(s(57.0), curve)) - 220.0).abs() < 0.001);
    assert_eq!(f(cents_to_ratio(s(1200.0), curve)), 2.0);
}

#[test]
fn hz_round_trips() {
    for note in 0..128 {
        let back = f(hz_to_midi(midi_to_hz(s(note as f32), curve), curve));
        assert!((back - note as f32).abs() < 0.001);
    }
    assert_eq!(f(hz_to_midi(s(0.0), curve)), 0.0);
}

#[test]
fn a_glide_of_no_time_is_a_jump() {
    let mut v = Voice::new(48000.0, 1);
    v.tone.set_glide(s(0.5), curve);
    assert_eq!(f(v.tone.glide_coef), (-1.0f32 / 24000.0).exp());
    v.tone.set_glide(s(0.0), curve);
    assert_eq!(f(v.tone.glide_coef), 0.0);
}
