use synth_core::curve::Curve;
use synth_core::drums::pad::Pad;
use synth_core::drums::voice::{Decay, DrumVoice as Drum};
use synth_core::Single;

fn s(x: f32) -> Single {
    Single::from_bits(x.to_bits())
}

fn f(x: Single) -> f32 {
    f32::from_bits(x.to_bits())
}

fn curve(c: Curve, x: Single) -> Single {
    let x = f(x);
    s(match c {
        Curve::Sine => x.sin(),
        Curve::Cosine => x.cos(),
        Curve::Tangent => x.tan(),
        Curve::Exponential => x.exp(),
        Curve::TwoTo => x.exp2(),
        Curve::TenTo => 10.0f32.powf(x),
        Curve::Logarithm => x.ln(),
        Curve::BinaryLogarithm => x.log2(),
        Curve::DecimalLogarithm => x.log10(),
        Curve::SquareRoot => x.sqrt(),
        Curve::Power(base) => f(base).powf(x),
    })
}

/// A drum that plays to plain numbers.
struct DrumVoice(Drum);

impl DrumVoice {
    fn new(sr: f32, seed: u64) -> Self {
        DrumVoice(Drum::new(s(sr), seed))
    }

    fn is_silent(&self) -> bool {
        self.0.is_silent()
    }

    fn strike(&mut self, pad: Pad, gain: f32, tune: f32, decay: f32) {
        self.0.hit(pad, s(gain), s(tune), s(decay), curve);
    }

    fn next(&mut self) -> f32 {
        f(self.0.next(curve))
    }
}

/// A drum is an event, not a note: it has to start loud on its own and
/// stop on its own, with nothing sending it a note-off.
#[test]
fn a_struck_kick_sounds_and_then_stops() {
    let mut v = DrumVoice::new(48_000.0, 1);
    assert!(v.is_silent());

    v.strike(Pad::Kick, 1.0, 0.0, 1.0);
    assert!(!v.is_silent());

    let mut peak = 0.0f32;
    for _ in 0..4_800 {
        peak = peak.max(v.next().abs());
    }
    assert!(peak > 0.2, "a kick that quiet is not a kick: {peak}");

    // The longest pad decays well inside a second; two is generous.
    for _ in 0..96_000 {
        v.next();
    }
    assert!(v.is_silent(), "the voice never released");
    assert_eq!(v.next(), 0.0);
}

/// Tuning has to reach the oscillator, not just the parameter store.
#[test]
fn tuning_moves_the_pitch() {
    let mut low = DrumVoice::new(48_000.0, 1);
    let mut high = DrumVoice::new(48_000.0, 1);
    low.strike(Pad::Kick, 1.0, 0.0, 1.0);
    high.strike(Pad::Kick, 1.0, 12.0, 1.0);

    // An octave up crosses zero twice as often. Counting sign changes
    // avoids an FFT and is exactly the property that matters.
    let mut low_crossings = 0;
    let mut high_crossings = 0;
    let (mut last_low, mut last_high) = (0.0f32, 0.0f32);
    for _ in 0..4_800 {
        let (l, h) = (low.next(), high.next());
        if l * last_low < 0.0 {
            low_crossings += 1;
        }
        if h * last_high < 0.0 {
            high_crossings += 1;
        }
        last_low = l;
        last_high = h;
    }
    assert!(
        high_crossings > low_crossings,
        "tuning up did not raise the pitch: {high_crossings} vs {low_crossings}"
    );
}

/// The drop is the kick. Its body starts four times up and falls to base
/// over 50 ms, so an early window of the same voice has to cross zero more
/// often than a late one. Counting crossings measures the pitch envelope
/// without an FFT, exactly as the tuning test does.
#[test]
fn the_kick_pitch_falls_over_its_first_fifty_milliseconds() {
    fn crossings(v: &mut DrumVoice, samples: usize) -> usize {
        let mut count = 0;
        let mut last = 0.0f32;
        for _ in 0..samples {
            let s = v.next();
            if s * last < 0.0 {
                count += 1;
            }
            last = s;
        }
        count
    }

    let mut v = DrumVoice::new(48_000.0, 1);
    v.strike(Pad::Kick, 1.0, 0.0, 1.0);

    // The first 10 ms, then the 40-50 ms window, with the stretch between
    // them rendered and thrown away.
    let early = crossings(&mut v, 480);
    let _ = crossings(&mut v, 1_440);
    let late = crossings(&mut v, 480);

    assert!(
        early > late,
        "the kick's pitch did not fall: {early} crossings then {late}"
    );
}

#[test]
fn a_fall_is_a_fall_to_silence() {
    let mut d = Decay::new();
    assert!(!d.is_active());
    d.trigger(s(1.0), s(0.5));
    assert_eq!(f(d.next()), 1.0);
    assert_eq!(f(d.next()), 0.5);
    let mut n = 0;
    while d.is_active() {
        d.next();
        n += 1;
    }
    assert_eq!(n, 15);
    assert_eq!(f(d.value), 0.0);
    d.trigger(s(1.0), s(0.5));
    d.silence();
    assert!(!d.is_active());
}

#[test]
fn a_new_sample_rate_silences() {
    let mut v = DrumVoice::new(0.0, 1);
    assert_eq!(f(v.0.sample_rate), 1.0);
    v.strike(Pad::Snare, 0.5, 0.0, 1.0);
    assert!(!v.is_silent());
    v.0.set_sample_rate(s(44100.0));
    assert!(v.is_silent());
    assert_eq!(f(Drum::ring(Pad::Kick, s(100.0))), 0.34f32 * 4.0);
}
