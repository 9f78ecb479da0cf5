use synth_core::compressor::{detect, Compressor as Comp};
use synth_core::curve::Curve;
use synth_core::params::{CompressorParams as Settings, SidechainSource};
use synth_core::pool::Pool;
use synth_core::Single;

fn s(x: f32) -> Single {
    Single::from_bits(x.to_bits())
}

fn f(x: Single) -> f32 {
    f32::from_bits(x.to_bits())
}

#[derive(Clone, Copy)]
struct CompressorParams {
    on: bool,
    threshold_db: f32,
    ratio: f32,
    attack_ms: f32,
    release_ms: f32,
    makeup_db: f32,
}

impl Default for CompressorParams {
    fn default() -> Self {
        let p = Settings::default();
        CompressorParams {
            on: p.on,
            threshold_db: f(p.threshold_db),
            ratio: f(p.ratio),
            attack_ms: f(p.attack_ms),
            release_ms: f(p.release_ms),
            makeup_db: f(p.makeup_db),
        }
    }
}

fn curve(c: Curve, x: Single) -> Single {
    let x = f(x);
    s(match c {
        Curve::Sine => x.sin(),
        Curve::Cosine => x.cos(),
        Curve::Tangent => x.tan(),
        Curve::Exponential => x.exp(),
        Curve::TwoTo => x.exp2(),
        Curve::TenTo => 10.0f32.powf(x),
        Curve::Logarithm => x.ln(),
        Curve::BinaryLogarithm => x.log2(),
        Curve::DecimalLogarithm => x.log10(),
        Curve::SquareRoot => x.sqrt(),
        Curve::Power(base) => f(base).powf(x),
    })
}

/// A compressor over plain numbers.
struct Compressor(Comp);

impl Compressor {
    fn new(sr: f32) -> Self {
        Compressor(Comp::new(s(sr)))
    }

    fn gain_reduction_db(&self) -> f32 {
        f(self.0.gain_reduction_db())
    }

    fn process(&mut self, l: &mut [f32], r: &mut [f32], key: Option<&[f32]>, p: &CompressorParams) {
        let settings = Settings {
            on: p.on,
            threshold_db: s(p.threshold_db),
            ratio: s(p.ratio),
            attack_ms: s(p.attack_ms),
            release_ms: s(p.release_ms),
            makeup_db: s(p.makeup_db),
            sidechain: SidechainSource::Off,
        };
        let mut left: Vec<Single> = l.iter().map(|x| s(*x)).collect();
        let mut right: Vec<Single> = r.iter().map(|x| s(*x)).collect();
        let key: Option<Vec<Single>> = key.map(|k| k.iter().map(|x| s(*x)).collect());
        self.0.process(&mut left, &mut right, key.as_ref(), &settings, curve, &mut Pool::new(2, 32));
        for (x, y) in l.iter_mut().zip(left) {
            *x = f(y);
        }
        for (x, y) in r.iter_mut().zip(right) {
            *x = f(y);
        }
    }
}
const SR: f32 = 48_000.0;

/// Turns a linear gain into dB, for asserting on what the compressor did.
fn db(gain: f32) -> f32 {
    20.0 * gain.log10()
}

#[test]
fn a_bypassed_compressor_is_a_bit_exact_pass_through() {
    let mut comp = Compressor::new(SR);
    let p = CompressorParams::default(); // on: false
    let mut l = [0.9, -0.7, 0.3, 0.0];
    let mut r = [0.1, 0.2, -0.9, 0.5];
    let want_l = l;
    let want_r = r;

    comp.process(&mut l, &mut r, None, &p);

    assert_eq!(l, want_l);
    assert_eq!(r, want_r);
    assert_eq!(comp.gain_reduction_db(), 0.0);
}

#[test]
fn a_signal_below_threshold_passes_at_unity() {
    let mut comp = Compressor::new(SR);
    let mut p = CompressorParams::default();
    p.on = true;
    p.threshold_db = -12.0; // 0.2512 linear; -6 dB knee floor is -15 dB
    // -40 dB, far below the knee.
    let mut l = [0.01; 512];
    let mut r = [0.01; 512];

    comp.process(&mut l, &mut r, None, &p);

    assert!((l[511] - 0.01).abs() < 1e-9, "got {}", l[511]);
    assert!(comp.gain_reduction_db() < 1e-6);
}

#[test]
fn a_steady_signal_settles_at_the_gain_reduction_the_ratio_implies() {
    let mut comp = Compressor::new(SR);
    let mut p = CompressorParams::default();
    p.on = true;
    p.threshold_db = -12.0;
    p.ratio = 4.0;
    p.attack_ms = 1.0;
    // One second is a thousand attack time constants: fully settled.
    let mut l = [0.5; 48_000];
    let mut r = [0.5; 48_000];

    comp.process(&mut l, &mut r, None, &p);

    // -6.0206 dB is 5.9794 over the threshold; a 4:1 ratio removes 3/4.
    let want_gr = 5.9794 * 0.75;
    assert!(
        (comp.gain_reduction_db() - want_gr).abs() < 0.01,
        "gr {} want {}",
        comp.gain_reduction_db(),
        want_gr
    );
    // 0.5 turned down by 4.4845 dB is 0.2982.
    assert!((l[47_999] - 0.2982).abs() < 1e-3, "got {}", l[47_999]);
}

#[test]
fn the_attack_reaches_63_percent_of_its_travel_in_one_time_constant() {
    let mut comp = Compressor::new(SR);
    let mut p = CompressorParams::default();
    p.on = true;
    p.threshold_db = -12.0;
    p.ratio = 4.0;
    p.attack_ms = 10.0;

    // 10 ms at 48 kHz is exactly 480 samples, which is the time constant.
    let mut l = [0.5; 480];
    let mut r = [0.5; 480];
    comp.process(&mut l, &mut r, None, &p);

    let settled = 5.9794 * 0.75;
    let want = settled * (1.0 - (-1.0f32).exp()); // 63.2% of the travel
    assert!(
        (comp.gain_reduction_db() - want).abs() < 0.01,
        "gr {} want {}",
        comp.gain_reduction_db(),
        want
    );
}

#[test]
fn the_release_gives_the_gain_back() {
    let mut comp = Compressor::new(SR);
    let mut p = CompressorParams::default();
    p.on = true;
    p.threshold_db = -12.0;
    p.ratio = 4.0;
    p.attack_ms = 1.0;
    p.release_ms = 10.0;

    let mut l = [0.5; 48_000];
    let mut r = [0.5; 48_000];
    comp.process(&mut l, &mut r, None, &p);
    let compressed = comp.gain_reduction_db();
    assert!(compressed > 4.0);

    // Silence for 480 samples: one release time constant of decay.
    let mut l = [0.0; 480];
    let mut r = [0.0; 480];
    comp.process(&mut l, &mut r, None, &p);

    let want = compressed * (-1.0f32).exp(); // 36.8% of the way left
    assert!(
        (comp.gain_reduction_db() - want).abs() < 0.01,
        "gr {} want {}",
        comp.gain_reduction_db(),
        want
    );
}

#[test]
fn gain_reduction_telemetry_matches_the_gain_actually_applied() {
    let mut comp = Compressor::new(SR);
    let mut p = CompressorParams::default();
    p.on = true;
    p.threshold_db = -12.0;
    p.ratio = 4.0;
    p.attack_ms = 1.0;
    p.makeup_db = 6.0;

    let mut l = [0.5; 48_000];
    let mut r = [0.5; 48_000];
    comp.process(&mut l, &mut r, None, &p);

    let applied = db(l[47_999] / 0.5);
    let reported = p.makeup_db - comp.gain_reduction_db();
    assert!((applied - reported).abs() < 1e-3, "{applied} vs {reported}");
}

#[test]
fn an_external_detector_drives_the_gain_instead_of_the_signal() {
    let mut p = CompressorParams::default();
    p.on = true;
    p.threshold_db = -40.0;
    p.ratio = 8.0;
    p.attack_ms = 1.0;

    // A loud signal with a silent detector is left alone.
    let mut comp = Compressor::new(SR);
    let mut l = [0.5; 4_800];
    let mut r = [0.5; 4_800];
    let silent = [0.0; 4_800];
    comp.process(&mut l, &mut r, Some(&silent), &p);
    assert!(comp.gain_reduction_db() < 1e-6);
    assert_eq!(l[4_799], 0.5);

    // A quiet signal with a loud detector is ducked.
    let mut comp = Compressor::new(SR);
    let mut l = [0.01; 4_800];
    let mut r = [0.01; 4_800];
    let loud = [1.0; 4_800];
    comp.process(&mut l, &mut r, Some(&loud), &p);
    assert!(comp.gain_reduction_db() > 30.0, "{}", comp.gain_reduction_db());
    assert!(l[4_799] < 0.001, "got {}", l[4_799]);
}

#[test]
fn a_detector_shorter_than_the_signal_does_not_panic() {
    let mut comp = Compressor::new(SR);
    let mut p = CompressorParams::default();
    p.on = true;
    p.threshold_db = -12.0;
    p.ratio = 4.0;
    p.attack_ms = 1.0;

    let mut l = [0.5; 10];
    let mut r = [0.5; 10];
    let detector = [1.0; 5];

    comp.process(&mut l, &mut r, Some(&detector), &p);

    // The first five samples were compressed against the loud detector...
    assert!(l[4] < 0.5, "got {}", l[4]);
    // ...but the tail beyond the detector's length is left exactly as it
    // was, not panicked on and not touched.
    assert_eq!(&l[5..], &[0.5; 5]);
    assert_eq!(&r[5..], &[0.5; 5]);
}

#[test]
fn an_infinite_sample_does_not_poison_the_envelope() {
    let mut comp = Compressor::new(SR);
    let mut p = CompressorParams::default();
    p.on = true;
    p.threshold_db = -12.0;
    p.ratio = 1.0; // slope is 0.0 -- the case that used to give inf * 0.0.
    p.attack_ms = 1.0;

    let mut l = [f32::INFINITY];
    let mut r = [f32::INFINITY];
    comp.process(&mut l, &mut r, None, &p);
    assert!(
        comp.gain_reduction_db().is_finite(),
        "gr {}",
        comp.gain_reduction_db()
    );

    // A following block of ordinary audio must still come out finite --
    // proving the earlier infinity did not leave `gr_db` as a NaN that
    // poisons every sample from here on.
    let mut l = [0.5; 480];
    let mut r = [0.5; 480];
    comp.process(&mut l, &mut r, None, &p);
    assert!(l.iter().all(|s| s.is_finite()));
    assert!(r.iter().all(|s| s.is_finite()));
    assert!(comp.gain_reduction_db().is_finite());
}

#[test]
fn a_nan_sample_does_not_poison_the_envelope() {
    let mut comp = Compressor::new(SR);
    let mut p = CompressorParams::default();
    p.on = true;
    p.threshold_db = -12.0;
    p.ratio = 4.0;
    p.attack_ms = 1.0;

    let mut l = [f32::NAN];
    let mut r = [f32::NAN];
    comp.process(&mut l, &mut r, None, &p);
    assert!(
        comp.gain_reduction_db().is_finite(),
        "gr {}",
        comp.gain_reduction_db()
    );

    // A following block of ordinary audio must still come out finite --
    // proving the earlier NaN did not leave `gr_db` as a NaN that
    // poisons every sample from here on.
    let mut l = [0.5; 480];
    let mut r = [0.5; 480];
    comp.process(&mut l, &mut r, None, &p);
    assert!(l.iter().all(|s| s.is_finite()));
    assert!(r.iter().all(|s| s.is_finite()));
    assert!(comp.gain_reduction_db().is_finite());
}

#[test]
fn the_detector_hears_only_finite_levels() {
    let left = [s(f32::NAN), s(f32::INFINITY), s(0.0), s(-0.5)];
    let right = [s(f32::NAN), s(0.1), s(0.0), s(0.25)];
    let levels: Vec<f32> = detect(&left, &right, None, &mut Pool::new(1, 32)).into_iter().map(f).collect();
    assert_eq!(levels, vec![1.0e-9, 1.0e9, 1.0e-9, 0.5]);
}

#[test]
fn another_sample_rate_forgets_the_reduction() {
    let mut comp = Comp::new(s(48000.0));
    comp.gr_db = s(4.0);
    comp.set_sample_rate(s(44100.0));
    assert_eq!(f(comp.gain_reduction_db()), 0.0);
    assert_eq!(f(comp.time_samples(s(10.0))), 10.0f32 * 0.001 * 44100.0);
    assert_eq!(f(comp.time_samples(s(0.0))), 1.0);
}

#[test]
fn the_reduction_stays_in_range_over_loud_blocks() {
    let mut comp = Compressor::new(SR);
    let mut p = CompressorParams::default();
    p.on = true;
    p.threshold_db = -60.0;
    p.ratio = 20.0;
    p.attack_ms = 0.1;
    p.release_ms = 5.0;
    let loud = [1.0e9, f32::MAX, f32::INFINITY, -f32::INFINITY, 0.0, f32::NAN, 1.0e-30, -3.0];
    for block in 0..200usize {
        let mut l: Vec<f32> = (0..32).map(|i| loud[(block + i) % loud.len()]).collect();
        let mut r = l.clone();
        comp.process(&mut l, &mut r, None, &p);
        let gr = comp.gain_reduction_db();
        assert!((0.0..=256.0).contains(&gr), "block {block}: {gr} dB");
    }
    p.on = false;
    comp.process(&mut [0.5], &mut [0.5], None, &p);
    assert_eq!(comp.gain_reduction_db(), 0.0);
}
