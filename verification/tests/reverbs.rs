use synth_core::clock::BLOCK;
use synth_core::curve::Curve;
use synth_core::params::Params;
use synth_core::reverb::PlateReverb as Plate;
use synth_core::Single;

fn s(x: f32) -> Single {
    Single::from_bits(x.to_bits())
}

fn f(x: Single) -> f32 {
    f32::from_bits(x.to_bits())
}

fn curve(c: Curve, x: Single) -> Single {
    let x = f(x);
    s(match c {
        Curve::Sine => x.sin(),
        Curve::Cosine => x.cos(),
        Curve::Tangent => x.tan(),
        Curve::Exponential => x.exp(),
        Curve::TwoTo => x.exp2(),
        Curve::TenTo => 10.0f32.powf(x),
        Curve::Logarithm => x.ln(),
        Curve::BinaryLogarithm => x.log2(),
        Curve::DecimalLogarithm => x.log10(),
        Curve::SquareRoot => x.sqrt(),
        Curve::Power(base) => f(base).powf(x),
    })
}

/// A reverb over plain numbers.
struct PlateReverb(Plate);

impl PlateReverb {
    fn new(sr: f32) -> Self {
        PlateReverb(Plate::new(s(sr), curve))
    }

    fn snap(&mut self, p: &Params) {
        self.0.snap(p);
    }

    fn process_chunk(&mut self, l: &mut [f32], r: &mut [f32], p: &Params) {
        let mut left: Vec<Single> = l.iter().map(|x| s(*x)).collect();
        let mut right: Vec<Single> = r.iter().map(|x| s(*x)).collect();
        self.0.process_chunk(&mut left, &mut right, p, curve);
        for (x, y) in l.iter_mut().zip(left) {
            *x = f(y);
        }
        for (x, y) in r.iter_mut().zip(right) {
            *x = f(y);
        }
    }
}
const SR: f32 = 48000.0;

fn run(reverb: &mut PlateReverb, left: &mut [f32], right: &mut [f32], params: &Params) {
    for (l, r) in left
        .chunks_mut(BLOCK)
        .zip(right.chunks_mut(BLOCK))
    {
        reverb.process_chunk(l, r, params);
    }
}

fn wet(mix: f32, size: f32, damping: f32) -> Params {
    let mut params = Params::default();
    params.reverb_mix = s(mix);
    params.reverb_size = s(size);
    params.reverb_damping = s(damping);
    params.reverb_predelay = s(0.0);
    params.reverb_width = s(1.0);
    params
}

/// Root mean square of a window, which is how loud it actually is.
fn rms(samples: &[f32]) -> f32 {
    if samples.is_empty() {
        return 0.0;
    }
    (samples.iter().map(|s| s * s).sum::<f32>() / samples.len() as f32).sqrt()
}

/// Renders one impulse into `seconds` of tail.
fn tail(params: &Params, seconds: f32) -> (Vec<f32>, Vec<f32>) {
    let mut reverb = PlateReverb::new(SR);
    reverb.snap(params);
    let count = (SR * seconds) as usize;
    let mut left = vec![0.0; count];
    let mut right = vec![0.0; count];
    left[0] = 1.0;
    right[0] = 1.0;
    run(&mut reverb, &mut left, &mut right, params);
    (left, right)
}

#[test]
fn a_zero_mix_leaves_the_signal_bit_identical() {
    let mut reverb = PlateReverb::new(SR);
    let params = Params::default();
    reverb.snap(&params);

    let source: Vec<f32> = (0..512).map(|i| (i as f32 * 0.02).sin()).collect();
    let mut left = source.clone();
    let mut right = source.clone();
    run(&mut reverb, &mut left, &mut right, &params);

    assert_eq!(left, source);
    assert_eq!(right, source);
}

#[test]
fn an_impulse_leaves_a_tail_behind_it() {
    let params = wet(1.0, 0.7, 0.3);
    let (left, _right) = tail(&params, 0.5);

    // 200 ms after the impulse there is still something there. A reverb
    // whose tail has already ended is just a filter.
    let late = &left[(SR * 0.2) as usize..(SR * 0.25) as usize];
    assert!(rms(late) > 1e-4, "tail died early: {}", rms(late));
}

#[test]
fn the_tail_decays_rather_than_holding_or_growing() {
    let params = wet(1.0, 0.7, 0.3);
    let (left, _right) = tail(&params, 2.0);

    // 50 ms windows, each quieter than the one before it. Compared across
    // a gap rather than adjacent windows: the early tail is dense and
    // uneven, and demanding strict sample-by-sample decay would be testing
    // the noise rather than the envelope.
    let window = (SR * 0.05) as usize;
    let early = rms(&left[window * 2..window * 3]);
    let middle = rms(&left[window * 10..window * 11]);
    let late = rms(&left[window * 30..window * 31]);
    assert!(middle < early, "{middle} !< {early}");
    assert!(late < middle, "{late} !< {middle}");
}

#[test]
fn a_bigger_size_makes_a_longer_tail() {
    let window = (SR * 0.05) as usize;
    let at = |size: f32| {
        let (left, _) = tail(&wet(1.0, size, 0.2), 2.0);
        rms(&left[window * 20..window * 21])
    };
    let small = at(0.15);
    let large = at(0.95);
    assert!(large > small * 2.0, "small {small}, large {large}");
}

#[test]
fn a_mono_input_comes_out_stereo() {
    let params = wet(1.0, 0.7, 0.3);
    let (left, right) = tail(&params, 0.5);

    let differences = left
        .iter()
        .zip(right.iter())
        .filter(|(l, r)| (*l - *r).abs() > 1e-6)
        .count();
    // The whole point of the shared tank with offset taps: the same input
    // produces two genuinely different outputs.
    assert!(differences > left.len() / 4, "only {differences} differed");
}

#[test]
fn zero_width_collapses_the_tail_to_mono() {
    let mut params = wet(1.0, 0.7, 0.3);
    params.reverb_width = s(0.0);
    let (left, right) = tail(&params, 0.3);
    for (i, (l, r)) in left.iter().zip(right.iter()).enumerate() {
        assert!((l - r).abs() < 1e-5, "sample {i}: {l} vs {r}");
    }
}

#[test]
fn predelay_holds_the_tail_back() {
    let mut params = wet(1.0, 0.7, 0.3);
    params.reverb_predelay = s(0.1); // 4800 samples
    let (left, _right) = tail(&params, 0.5);

    let before = rms(&left[100..4000]);
    let after = rms(&left[5000..9000]);
    assert!(before < after * 0.05, "before {before}, after {after}");
}

#[test]
fn the_worst_case_settings_stay_bounded() {
    // Maximum size, no damping, full-scale noise, ten seconds. If the tank
    // is going to run away, this is where it happens.
    let params = wet(1.0, 1.0, 0.0);
    let mut reverb = PlateReverb::new(SR);
    reverb.snap(&params);

    let mut seed: u32 = 0x1234_5678;
    let count = (SR * 10.0) as usize;
    let mut left = Vec::with_capacity(count);
    for _ in 0..count {
        seed = seed.wrapping_mul(1_664_525).wrapping_add(1_013_904_223);
        left.push((seed >> 8) as f32 / 8_388_608.0 - 1.0);
    }
    let mut right = left.clone();
    run(&mut reverb, &mut left, &mut right, &params);

    for (i, sample) in left.iter().chain(right.iter()).enumerate() {
        assert!(sample.is_finite(), "sample {i} was {sample}");
        // Not tighter than this: this test exists to catch a runaway
        // tank, and runaway is exponential, reaching absurd magnitudes
        // within seconds. A correct tank at these settings (max decay,
        // zero damping, ten seconds of full-scale noise) is loud but
        // bounded, peaking around 7x. 16.0 separates "correct but loud"
        // from "diverging" while leaving headroom over that.
        assert!(sample.abs() <= 16.0, "sample {i} was {sample}");
    }
}

#[test]
fn turning_the_mix_back_up_starts_clean() {
    let mut reverb = PlateReverb::new(SR);
    let loud = wet(1.0, 0.9, 0.1);
    reverb.snap(&loud);
    let mut left = vec![1.0; 2048];
    let mut right = vec![1.0; 2048];
    run(&mut reverb, &mut left, &mut right, &loud);
    // Off long enough for the control to arrive, then on again over silence.
    let off = wet(0.0, 0.9, 0.1);
    for _ in 0..2000 {
        let mut l = vec![0.0; BLOCK];
        let mut r = vec![0.0; BLOCK];
        reverb.process_chunk(&mut l, &mut r, &off);
    }
    assert!(reverb.0.bypassed);
    let mut left = vec![0.0; 4096];
    let mut right = vec![0.0; 4096];
    run(&mut reverb, &mut left, &mut right, &loud);
    assert!(left.iter().chain(right.iter()).all(|x| *x == 0.0));
}

#[test]
fn lengths_follow_the_sample_rate() {
    let at = |sr: f32| Plate::new(s(sr), curve);
    let r = at(29761.0);
    assert_eq!(r.half_l.ap1.length, 672);
    assert_eq!(r.half_l.delay1.length, 4453);
    assert_eq!(r.half_r.ap2.length, 2656);
    assert_eq!(r.taps_left, [266, 2974, 1913, 1996, 1990, 187, 1066]);
    assert_eq!(r.taps_right, [353, 3627, 1228, 2673, 2111, 335, 121]);
    let r = at(48000.0);
    let ratio = 48000.0f32 / 29761.0;
    assert_eq!(r.half_l.ap1.length, (672.0 * ratio).round() as usize);
    assert_eq!(r.diffuser.d.length, (277.0 * ratio).round() as usize);
    assert_eq!(f(r.excursion), 16.0 * ratio);
    // A rate that makes no sense gives the usual one.
    assert_eq!(f(at(-1.0).sample_rate), 48000.0);
    assert_eq!(f(at(f32::NAN).sample_rate), 48000.0);
}

#[test]
fn no_tail_is_left_after_a_chunk_at_no_mix() {
    let mut reverb = PlateReverb::new(SR);
    let loud = wet(1.0, 0.9, 0.2);
    reverb.snap(&loud);
    let mut left = vec![0.5; 4096];
    let mut right = vec![-0.25; 4096];
    run(&mut reverb, &mut left, &mut right, &loud);

    // Down to nothing, and a chunk there: the signal passes and the tank is emptied.
    let dry = wet(0.0, 0.9, 0.2);
    let mut chunks = 0;
    while f(reverb.0.mix.value()) != 0.0 {
        let mut l = [0.0; BLOCK];
        let mut r = [0.0; BLOCK];
        reverb.process_chunk(&mut l, &mut r, &dry);
        chunks += 1;
        assert!(chunks < 10_000, "the mix never reached zero");
    }
    let mut l = [0.125; BLOCK];
    let mut r = [0.125; BLOCK];
    reverb.process_chunk(&mut l, &mut r, &dry);
    assert!(l.iter().chain(&r).all(|x| *x == 0.125));

    let mut left = vec![0.0; 48_000];
    let mut right = vec![0.0; 48_000];
    run(&mut reverb, &mut left, &mut right, &loud);
    assert!(left.iter().chain(&right).all(|x| *x == 0.0), "a stale tail surfaced");
}

#[test]
fn the_rest_of_the_longer_channel_is_left_alone() {
    let p = wet(0.7, 0.6, 0.3);
    let even = |n: usize| {
        let mut reverb = PlateReverb::new(SR);
        reverb.snap(&p);
        let mut l: Vec<f32> = (0..n).map(|i| (i as f32 * 0.1).sin()).collect();
        let mut r = l.clone();
        reverb.process_chunk(&mut l, &mut r, &p);
        (l, r, reverb.0.node_l)
    };
    let mut reverb = PlateReverb::new(SR);
    reverb.snap(&p);
    let dry: Vec<f32> = (0..BLOCK).map(|i| (i as f32 * 0.1).sin()).collect();
    let mut l = dry.clone();
    let mut r = dry[..20].to_vec();
    reverb.process_chunk(&mut l, &mut r, &p);
    let (short_l, short_r, node) = even(20);
    assert_eq!(&l[..20], &short_l[..]);
    assert_eq!(r, short_r);
    assert_eq!(&l[20..], &dry[20..]);
    assert_eq!(reverb.0.node_l, node);
}

#[test]
fn the_controls_stay_between_zero_and_one() {
    let mut reverb = PlateReverb::new(SR);
    for i in 0..2_000u32 {
        let (a, b) = if (i / 7) % 2 == 0 { (1.0, 0.0) } else { (0.0, 1.0) };
        let mut p = wet(a, b, a);
        p.reverb_width = s(b);
        let (mut l, mut r) = ([0.3; 4], [0.3; 4]);
        reverb.process_chunk(&mut l, &mut r, &p);
        for c in [reverb.0.mix, reverb.0.width, reverb.0.damping, reverb.0.decay] {
            assert!((0.0..=1.0).contains(&f(c.value())));
        }
    }
}

/// From a new reverb to silence: at no mix the first chunk comes back bit for bit, and
/// however far the mix is turned up after it, silence stays silence.
#[test]
fn a_new_reverb_at_no_mix_keeps_no_tail() {
    for sr in [8000.0, 44100.0, 96000.0] {
        let mut reverb = PlateReverb::new(sr);
        let off = Params { reverb_mix: s(0.0), ..Params::default() };
        reverb.snap(&off);
        let dry: Vec<f32> = (0..BLOCK).map(|i| (i as f32 * 0.3).sin()).collect();
        let (mut left, mut right) = (dry.clone(), dry.clone());
        reverb.process_chunk(&mut left, &mut right, &off);
        assert!(left.iter().zip(&dry).all(|(x, y)| x.to_bits() == y.to_bits()));
        assert!(right.iter().zip(&dry).all(|(x, y)| x.to_bits() == y.to_bits()));
        for i in 0..200 {
            let loud = Params {
                reverb_mix: s(1.0 - (i % 3) as f32 * 0.2),
                reverb_size: s(1.0),
                ..Params::default()
            };
            let (mut left, mut right) = (vec![0.0; BLOCK], vec![0.0; BLOCK]);
            reverb.process_chunk(&mut left, &mut right, &loud);
            assert!(left.iter().chain(&right).all(|x| *x == 0.0), "chunk {i} at {sr}");
        }
    }
}

/// Every line of a new reverb is the shortest power of two that holds its length, and what
/// room it needs beyond.
#[test]
fn every_line_of_a_new_reverb_holds_its_length() {
    for sr in [8000.0f32, 29761.0, 48000.0, 192000.0] {
        let r = Plate::new(s(sr), curve);
        let ratio = sr / 29761.0;
        let headroom = (16.0 * ratio).ceil() as usize;
        let room = |length: usize, more: usize| (length + more + 3).next_power_of_two();
        let scaled = |length: f32| ((length * ratio).round() as usize).max(1);
        for (line, length) in [
            (&r.diffuser.a, 142.0),
            (&r.diffuser.b, 107.0),
            (&r.diffuser.c, 379.0),
            (&r.diffuser.d, 277.0),
            (&r.half_l.ap2, 1800.0),
            (&r.half_r.ap2, 2656.0),
        ] {
            assert_eq!(line.length, scaled(length), "{length} at {sr}");
            assert_eq!(line.line.capacity(), room(line.length, 0), "{length} at {sr}");
        }
        for (line, length) in [(&r.half_l.ap1, 672.0), (&r.half_r.ap1, 908.0)] {
            assert_eq!(line.length, scaled(length), "{length} at {sr}");
            assert_eq!(line.line.capacity(), room(line.length, headroom), "{length} at {sr}");
        }
        for (line, length) in [
            (&r.half_l.delay1, 4453.0),
            (&r.half_l.delay2, 3720.0),
            (&r.half_r.delay1, 4217.0),
            (&r.half_r.delay2, 3163.0),
        ] {
            assert_eq!(line.length, scaled(length), "{length} at {sr}");
            assert_eq!(line.line.capacity(), room(line.length, 0), "{length} at {sr}");
        }
        let predelay = (0.25 * sr).ceil() as usize;
        assert_eq!(r.predelay.capacity(), (predelay + 1).next_power_of_two());
    }
}
