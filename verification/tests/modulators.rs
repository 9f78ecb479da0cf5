use synth_core::lfo::{Lfo as Slow, LfoWave};
use synth_core::Single;

fn s(x: f32) -> Single {
    Single::from_bits(x.to_bits())
}

fn f(x: Single) -> f32 {
    f32::from_bits(x.to_bits())
}

/// An oscillator whose curves are taken here.
struct Lfo(Slow);

impl Lfo {
    fn new(sr: f32, seed: u64) -> Self {
        Lfo(Slow::new(s(sr), seed))
    }

    fn set_rate(&mut self, hz: f32) {
        self.0.set_rate(s(hz));
    }

    fn curve(&self, wave: LfoWave) -> Single {
        match (wave, self.0.angle(wave)) {
            (LfoWave::Sine, Some(a)) => s(f(a).sin()),
            (_, Some(a)) => s(f(a).cos()),
            _ => s(0.0),
        }
    }

    fn next(&mut self, wave: LfoWave) -> f32 {
        let curve = self.curve(wave);
        f(self.0.next(wave, curve))
    }

    fn next_block(&mut self, wave: LfoWave, samples: usize) -> f32 {
        let curve = self.curve(wave);
        f(self.0.next_block(wave, curve, samples))
    }
}
#[test]
fn every_shape_is_bipolar_and_bounded() {
    for wave in LfoWave::ALL {
        let mut lfo = Lfo::new(48000.0, 11);
        lfo.set_rate(5.0);
        let mut min = f32::MAX;
        let mut max = f32::MIN;
        for _ in 0..48000 {
            let v = lfo.next(wave);
            assert!(v.is_finite());
            min = min.min(v);
            max = max.max(v);
        }
        assert!(min >= -1.001 && max <= 1.001, "{wave:?} ranged {min}..{max}");
        assert!(max - min > 0.5, "{wave:?} barely moved");
    }
}

#[test]
fn rate_controls_cycles_per_second() {
    let mut lfo = Lfo::new(48000.0, 1);
    lfo.set_rate(4.0);
    let mut crossings = 0;
    let mut prev = lfo.next(LfoWave::Saw);
    // One sample past a full second. The fourth cycle completes exactly at
    // sample 48000, and a wrap is only observable on the sample *after* it
    // happens, so stopping at 48000 would legitimately see three.
    for _ in 0..48001 {
        let v = lfo.next(LfoWave::Saw);
        // A saw wraps once per cycle.
        if v < prev {
            crossings += 1;
        }
        prev = v;
    }
    assert_eq!(crossings, 4);
}

#[test]
fn a_block_runs_at_the_same_rate_as_its_samples() {
    let mut one = Lfo::new(48000.0, 3);
    let mut many = Lfo::new(48000.0, 3);
    one.set_rate(5.0);
    many.set_rate(5.0);
    for _ in 0..3000 {
        let a = one.next_block(LfoWave::Triangle, 32);
        let b = many.next(LfoWave::Triangle);
        for _ in 1..32 {
            many.next(LfoWave::Triangle);
        }
        assert!((a - b).abs() < 1e-3);
    }
}

#[test]
fn a_very_long_block_draws_a_bounded_number_of_values() {
    let mut lfo = Lfo::new(48000.0, 3);
    lfo.set_rate(40.0);
    lfo.next_block(LfoWave::SampleHold, 48000 * 100);
    let phase = f64::from_bits(lfo.0.phase.bits);
    assert!((0.0..1.0).contains(&phase), "{phase}");
}

#[test]
fn rates_are_held_and_a_retrigger_restarts() {
    let mut lfo = Lfo::new(48000.0, 3);
    lfo.set_rate(1e9);
    assert_eq!(f64::from_bits(lfo.0.dt.bits), (40.0f32 / 48000.0) as f64);
    lfo.set_rate(-1.0);
    assert_eq!(f64::from_bits(lfo.0.dt.bits), (0.01f32 / 48000.0) as f64);
    lfo.next(LfoWave::Saw);
    lfo.0.retrigger();
    assert_eq!(lfo.0.phase.bits, 0);
    assert_eq!(lfo.next(LfoWave::Saw), -1.0);
}

#[test]
fn held_values_change_once_a_cycle() {
    let mut lfo = Lfo::new(100.0, 5);
    lfo.set_rate(1.0);
    let mut changes = 0;
    let mut last = lfo.next(LfoWave::SampleHold);
    for _ in 0..1000 {
        let v = lfo.next(LfoWave::SampleHold);
        if v != last {
            changes += 1;
        }
        last = v;
    }
    assert!((9..=10).contains(&changes), "{changes}");
}
