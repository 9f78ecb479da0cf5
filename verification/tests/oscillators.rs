use synth_core::osc::{Oscillator as Osc, Waveform};
use synth_core::Single;

fn s(x: f32) -> Single {
    Single::from_bits(x.to_bits())
}

fn f(x: Single) -> f32 {
    f32::from_bits(x.to_bits())
}

/// An oscillator whose sines are taken here.
struct Oscillator(Osc);

impl Oscillator {
    fn new(sr: f32, seed: u64) -> Self {
        Oscillator(Osc::new(s(sr), seed))
    }

    fn set_freq(&mut self, hz: f32) {
        self.0.set_freq(s(hz));
    }

    fn next(&mut self, wave: Waveform) -> f32 {
        let sine = f(self.0.angle()).sin();
        f(self.0.next(wave, s(sine)))
    }
}
/// Every waveform must stay inside a sane range. A broken PolyBLEP shows up
/// here immediately as an explosion at high frequencies.
#[test]
fn waveforms_stay_bounded() {
    for wave in Waveform::ALL {
        for &freq in &[20.0, 440.0, 4000.0, 12000.0, 20000.0] {
            let mut osc = Oscillator::new(48000.0, 1);
            osc.set_freq(freq);
            for _ in 0..48000 {
                let s = osc.next(wave);
                assert!(
                    s.is_finite() && s.abs() < 2.0,
                    "{wave:?} at {freq} Hz produced {s}"
                );
            }
        }
    }
}

/// The point of PolyBLEP: a high saw should have far less energy above
/// Nyquist-fold than a naive one. We measure it indirectly by comparing
/// sample-to-sample jumps, which is where aliasing energy lives.
#[test]
fn polyblep_softens_the_discontinuity() {
    let mut osc = Oscillator::new(48000.0, 1);
    osc.set_freq(2000.0);
    let mut worst_blep: f32 = 0.0;
    let mut prev = osc.next(Waveform::Saw);
    for _ in 0..4800 {
        let s = osc.next(Waveform::Saw);
        worst_blep = worst_blep.max((s - prev).abs());
        prev = s;
    }
    // A naive saw at 2 kHz jumps the full 2.0 range in one sample.
    assert!(worst_blep < 1.6, "jump was {worst_blep}, blep not applied");
}

#[test]
fn triangle_has_no_dc_drift() {
    let mut osc = Oscillator::new(48000.0, 1);
    osc.set_freq(110.0);
    // Discard the integrator's start-up transient.
    for _ in 0..4800 {
        osc.next(Waveform::Triangle);
    }
    let mut sum = 0.0f64;
    for _ in 0..48000 {
        sum += osc.next(Waveform::Triangle) as f64;
    }
    assert!((sum / 48000.0).abs() < 0.01, "DC offset {}", sum / 48000.0);
}

#[test]
fn a_saw_is_a_ramp_away_from_its_step() {
    let mut osc = Oscillator::new(48000.0, 1);
    osc.set_freq(480.0);
    let dt = 480.0f32 / 48000.0;
    let mut t = 0.0f32;
    for n in 0..90 {
        let x = osc.next(Waveform::Saw);
        if n > 1 {
            assert_eq!(x, 2.0 * t - 1.0);
        }
        t += dt;
    }
}

#[test]
fn frequency_and_pulse_width_are_held_in_range() {
    let mut osc = Osc::new(s(48000.0), 1);
    osc.set_freq(s(1e9));
    assert_eq!(f(osc.dt), (48000.0f32 * 0.5 * 0.98) / 48000.0);
    osc.set_freq(s(-4.0));
    assert_eq!(f(osc.dt), 0.0);
    osc.set_pulse_width(s(0.0));
    assert_eq!(f(osc.pulse_width), 0.05);
    osc.set_pulse_width(s(1.0));
    assert_eq!(f(osc.pulse_width), 0.95);
}

#[test]
fn a_starting_phase_is_taken_round_the_cycle() {
    let mut osc = Osc::new(s(48000.0), 1);
    for (x, y) in [(0.25f32, 0.25f32), (3.75, 0.75), (-0.25, 0.75), (2.0, 0.0)] {
        osc.set_phase(s(x));
        assert_eq!(f(osc.phase), y, "{x}");
    }
    osc.set_phase(s(0.1));
    assert_eq!(f(osc.phase), 0.1f32.rem_euclid(1.0));
    osc.reset_phase();
    assert_eq!(f(osc.phase), 0.0);
}

#[test]
fn noise_draws_and_does_not_turn() {
    let mut osc = Osc::new(s(48000.0), 9);
    osc.set_freq(s(440.0));
    let a = osc.next(Waveform::Noise, s(0.0));
    let b = osc.next(Waveform::Noise, s(0.0));
    assert_ne!(a, b);
    assert_eq!(f(osc.phase), 0.0);
    assert!(f(a).abs() <= 1.0 && f(b).abs() <= 1.0);
}
