use synth_core::filter::{Filter as Stages, Slope, Svf as Stage, SvfMode};
use synth_core::Single;

fn s(x: f32) -> Single {
    Single::from_bits(x.to_bits())
}

fn f(x: Single) -> f32 {
    f32::from_bits(x.to_bits())
}

/// A filter whose tangent is taken here.
struct Svf(Stage);

impl Svf {
    fn new(sr: f32) -> Self {
        let mut svf = Svf(Stage::new(s(sr), s(0.0)));
        svf.set_params(1000.0, 0.0);
        svf
    }

    fn set_params(&mut self, cutoff: f32, res: f32) {
        let g = f(self.0.warp_angle(s(cutoff))).tan();
        self.0.set_params(s(g), s(res));
    }

    fn process_mode(&mut self, x: f32, mode: SvfMode) -> f32 {
        f(self.0.process_mode(s(x), mode))
    }
}

struct Filter {
    stages: Stages,
    slope: Slope,
}

impl Filter {
    fn new(sr: f32) -> Self {
        Filter { stages: Stages::new(s(sr), s(0.0)), slope: Slope::Db12 }
    }

    fn set_params(&mut self, cutoff: f32, res: f32) {
        let g = f(self.stages.stage1.warp_angle(s(cutoff))).tan();
        self.stages.set_params(s(g), s(res));
    }

    fn process(&mut self, x: f32) -> f32 {
        self.stages.slope = self.slope;
        f(self.stages.process(s(x)))
    }
}
/// Measures the filter's gain at a given frequency by running a sine
/// through it and taking the peak of the steady state.
fn gain_at(mode: SvfMode, cutoff: f32, res: f32, probe_hz: f32) -> f32 {
    let sr = 48000.0;
    let mut f = Svf::new(sr);
    f.set_params(cutoff, res);
    let mut phase = 0.0f32;
    let inc = probe_hz / sr;
    let mut peak: f32 = 0.0;
    // Settle first, then measure.
    for i in 0..24000 {
        let x = (phase * core::f32::consts::TAU).sin();
        phase = (phase + inc) % 1.0;
        let y = f.process_mode(x, mode);
        if i > 12000 {
            peak = peak.max(y.abs());
        }
    }
    peak
}

#[test]
fn lowpass_passes_low_and_stops_high() {
    assert!(gain_at(SvfMode::Lowpass, 1000.0, 0.0, 100.0) > 0.9);
    assert!(gain_at(SvfMode::Lowpass, 1000.0, 0.0, 10000.0) < 0.1);
}

#[test]
fn highpass_is_the_mirror_image() {
    assert!(gain_at(SvfMode::Highpass, 1000.0, 0.0, 100.0) < 0.1);
    assert!(gain_at(SvfMode::Highpass, 1000.0, 0.0, 10000.0) > 0.9);
}

#[test]
fn bandpass_peaks_at_cutoff() {
    let at_center = gain_at(SvfMode::Bandpass, 1000.0, 0.7, 1000.0);
    assert!(at_center > gain_at(SvfMode::Bandpass, 1000.0, 0.7, 100.0));
    assert!(at_center > gain_at(SvfMode::Bandpass, 1000.0, 0.7, 10000.0));
}

#[test]
fn notch_rejects_at_cutoff() {
    assert!(gain_at(SvfMode::Notch, 1000.0, 0.0, 1000.0) < 0.2);
    assert!(gain_at(SvfMode::Notch, 1000.0, 0.0, 100.0) > 0.8);
    assert!(gain_at(SvfMode::Notch, 1000.0, 0.0, 10000.0) > 0.8);
}

#[test]
fn resonance_lifts_the_corner() {
    let flat = gain_at(SvfMode::Lowpass, 1000.0, 0.0, 1000.0);
    let resonant = gain_at(SvfMode::Lowpass, 1000.0, 0.9, 1000.0);
    assert!(resonant > flat * 3.0, "flat {flat}, resonant {resonant}");
}

/// The whole reason for choosing TPT over a biquad: sweeping the cutoff
/// fast at high resonance must not blow up.
#[test]
fn survives_violent_cutoff_modulation() {
    let sr = 48000.0;
    let mut f = Svf::new(sr);
    let mut osc_phase = 0.0f32;
    let mut peak: f32 = 0.0;
    for i in 0..480_000 {
        // Sweep the cutoff across the whole range every few milliseconds.
        let t = i as f32 / sr;
        let cutoff = 200.0 + 8000.0 * (t * 200.0).sin().abs();
        f.set_params(cutoff, 0.98);
        let x = (osc_phase * core::f32::consts::TAU).sin();
        osc_phase = (osc_phase + 220.0 / sr) % 1.0;
        let y = f.process_mode(x, SvfMode::Lowpass);
        assert!(y.is_finite(), "filter produced {y} at sample {i}");
        peak = peak.max(y.abs());
    }
    assert!(peak < 50.0, "filter rang up to {peak}");
}

#[test]
fn twenty_four_db_is_steeper_than_twelve() {
    let sr = 48000.0;
    let measure = |slope: Slope| {
        let mut f = Filter::new(sr);
        f.slope = slope;
        f.set_params(1000.0, 0.0);
        let mut phase = 0.0f32;
        let mut peak: f32 = 0.0;
        for i in 0..24000 {
            let x = (phase * core::f32::consts::TAU).sin();
            phase = (phase + 4000.0 / sr) % 1.0;
            let y = f.process(x);
            if i > 12000 {
                peak = peak.max(y.abs());
            }
        }
        peak
    };
    assert!(measure(Slope::Db24) < measure(Slope::Db12));
}

#[test]
fn a_filter_computes_what_the_hardware_computes() {
    let sr = 48000.0f32;
    let mut svf = Svf::new(sr);
    svf.set_params(700.0, 0.6);
    let g = (core::f32::consts::PI * 700.0f32 / sr).tan();
    let k = (2.0f32 - 2.0 * 0.6).max(0.025);
    let a1 = 1.0 / (1.0 + g * (g + k));
    let a2 = g * a1;
    let a3 = g * a2;
    let (mut i1, mut i2) = (0.0f32, 0.0f32);
    for n in 0..2000 {
        let x = (n as f32 * 0.1).sin();
        let v3 = x - i2;
        let v1 = a1 * i1 + a2 * v3;
        let v2 = i2 + a2 * i1 + a3 * v3;
        i1 = 2.0 * v1 - i1;
        i2 = 2.0 * v2 - i2;
        let out = svf.0.process(s(x));
        assert_eq!(f(out.low), v2);
        assert_eq!(f(out.band), v1);
        let high = x - k * v1 - v2;
        assert_eq!(f(out.high), high);
        assert_eq!(f(out.notch), high + v2);
        assert_eq!(f(out.peak), high - v2);
    }
    svf.0.reset();
    assert_eq!(f(svf.0.ic1eq), 0.0);
}

#[test]
fn a_bypassed_filter_hands_the_sample_on() {
    let mut filter = Stages::new(s(48000.0), s(0.1));
    filter.mode = SvfMode::Bypass;
    filter.slope = Slope::Db24;
    let before = filter;
    assert_eq!(f(filter.process(s(0.3))), 0.3);
    assert_eq!(filter, before);
}
