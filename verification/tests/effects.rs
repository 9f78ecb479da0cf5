use synth_core::clock::BLOCK;
use synth_core::curve::Curve;
use synth_core::delay::{NoteDivision, StereoDelay};
use synth_core::fx::FxChain as Chain;
use synth_core::params::Params;
use synth_core::Single;

fn s(x: f32) -> Single {
    Single::from_bits(x.to_bits())
}

fn f(x: Single) -> f32 {
    f32::from_bits(x.to_bits())
}

fn curve(c: Curve, x: Single) -> Single {
    let x = f(x);
    s(match c {
        Curve::Sine => x.sin(),
        Curve::Cosine => x.cos(),
        Curve::Tangent => x.tan(),
        Curve::Exponential => x.exp(),
        Curve::TwoTo => x.exp2(),
        Curve::TenTo => 10.0f32.powf(x),
        Curve::Logarithm => x.ln(),
        Curve::BinaryLogarithm => x.log2(),
        Curve::DecimalLogarithm => x.log10(),
        Curve::SquareRoot => x.sqrt(),
        Curve::Power(base) => f(base).powf(x),
    })
}

const SR: f32 = 48000.0;

/// The chain over plain numbers.
struct FxChain(Chain);

impl FxChain {
    fn new(sample_rate: f32) -> Self {
        FxChain(Chain::new(s(sample_rate), curve))
    }

    fn set_sample_rate(&mut self, sample_rate: f32) {
        self.0.set_sample_rate(s(sample_rate), curve);
    }

    fn process_block(&mut self, l: &mut [f32], r: &mut [f32], p: &Params, tempo: f32) {
        let mut left: Vec<Single> = l.iter().map(|x| s(*x)).collect();
        let mut right: Vec<Single> = r.iter().map(|x| s(*x)).collect();
        self.0.process_block(&mut left, &mut right, p, s(tempo), curve);
        assert_eq!(left.len(), l.len());
        assert_eq!(right.len(), r.len());
        for (slot, x) in l.iter_mut().zip(left) {
            *slot = f(x);
        }
        for (slot, x) in r.iter_mut().zip(right) {
            *slot = f(x);
        }
    }
}

#[test]
fn defaults_pass_the_signal_through_untouched() {
    let mut chain = FxChain::new(SR);
    let params = Params::default();

    let source: Vec<f32> = (0..1024).map(|i| (i as f32 * 0.03).sin()).collect();
    let mut left = source.clone();
    let mut right = source.clone();
    chain.process_block(&mut left, &mut right, &params, 120.0);

    assert_eq!(left, source);
    assert_eq!(right, source);
}

#[test]
fn smoothing_advances_per_block_not_per_call() {
    let mut params = Params::default();
    params.delay_mix = s(0.5);
    params.delay_feedback = s(0.4);
    params.reverb_mix = s(0.4);

    let source: Vec<f32> = (0..1024).map(|i| (i as f32 * 0.05).sin()).collect();

    let mut whole_l = source.clone();
    let mut whole_r = source.clone();
    let mut chain = FxChain::new(SR);
    chain.process_block(&mut whole_l, &mut whole_r, &params, 120.0);

    let mut piece_l = source.clone();
    let mut piece_r = source.clone();
    let mut chain = FxChain::new(SR);
    for (l, r) in piece_l.chunks_mut(96).zip(piece_r.chunks_mut(96)) {
        chain.process_block(l, r, &params, 120.0);
    }

    assert_eq!(whole_l, piece_l);
    assert_eq!(whole_r, piece_r);
}

#[test]
fn both_effects_are_audible_together() {
    let mut params = Params::default();
    params.delay_mix = s(0.5);
    params.delay_time = s(0.05);
    params.delay_feedback = s(0.5);
    params.reverb_mix = s(0.5);
    params.reverb_size = s(0.8);

    let mut chain = FxChain::new(SR);
    let mut left = vec![0.0; 24000];
    let mut right = vec![0.0; 24000];
    left[0] = 1.0;
    right[0] = 1.0;
    chain.process_block(&mut left, &mut right, &params, 120.0);

    let late: f32 = left[12000..].iter().map(|s| s.abs()).sum();
    assert!(late > 0.1, "nothing left by halfway: {late}");
    assert!(left.iter().all(|s| s.is_finite()));
}

#[test]
fn changing_the_sample_rate_clears_the_effects() {
    let mut params = Params::default();
    params.reverb_mix = s(1.0);
    params.reverb_size = s(0.9);

    let mut chain = FxChain::new(SR);
    let mut left = vec![1.0; 4096];
    let mut right = vec![1.0; 4096];
    chain.process_block(&mut left, &mut right, &params, 120.0);

    chain.set_sample_rate(44100.0);
    let mut left = vec![0.0; 512];
    let mut right = vec![0.0; 512];
    chain.process_block(&mut left, &mut right, &params, 120.0);
    for (i, sample) in left.iter().enumerate() {
        assert!(sample.abs() < 1e-6, "sample {i} leaked: {sample}");
    }
}

#[test]
fn a_buffer_length_that_is_not_a_multiple_of_block_does_not_panic() {
    let mut params = Params::default();
    params.delay_mix = s(0.5);
    params.delay_feedback = s(0.4);
    params.reverb_mix = s(0.4);
    params.reverb_size = s(0.7);

    let mut chain = FxChain::new(SR);
    let source: Vec<f32> = (0..100).map(|i| (i as f32 * 0.07).sin()).collect();
    let mut left = source.clone();
    let mut right = source;
    chain.process_block(&mut left, &mut right, &params, 120.0);

    assert!(left.iter().all(|s| s.is_finite()));
    assert!(right.iter().all(|s| s.is_finite()));
}

/// A delay at a patch, run over two channels in blocks.
fn delayed(p: &Params, tempo: f32, left: &[f32], right: &[f32]) -> (Vec<f32>, Vec<f32>) {
    let mut delay = StereoDelay::new(s(1000.0), curve);
    delay.snap(p, s(tempo));
    let (mut out_l, mut out_r) = (Vec::new(), Vec::new());
    for (l, r) in left.chunks(BLOCK).zip(right.chunks(BLOCK)) {
        let mut l: Vec<Single> = l.iter().map(|x| s(*x)).collect();
        let mut r: Vec<Single> = r.iter().map(|x| s(*x)).collect();
        delay.process_chunk(&mut l, &mut r, p, s(tempo));
        out_l.extend(l.into_iter().map(f));
        out_r.extend(r.into_iter().map(f));
    }
    (out_l, out_r)
}

fn impulse(len: usize) -> Vec<f32> {
    let mut x = vec![0.0; len];
    x[0] = 1.0;
    x
}

fn bright(ping_pong: bool) -> Params {
    Params {
        delay_mix: s(1.0),
        delay_time: s(0.1),
        delay_feedback: s(0.5),
        delay_damping: s(0.0),
        delay_ping_pong: ping_pong,
        ..Params::default()
    }
}

#[test]
fn repeats_come_back_on_time_and_halve() {
    let (l, r) = delayed(&bright(false), 120.0, &impulse(400), &vec![0.0; 400]);
    for (i, x) in l.iter().enumerate() {
        let want = match i {
            100 => 1.0,
            200 => 0.5,
            300 => 0.25,
            _ => 0.0,
        };
        assert_eq!(*x, want, "sample {i}");
    }
    assert!(r.iter().all(|x| *x == 0.0), "the other side stays silent");
}

#[test]
fn a_crossed_delay_answers_from_one_side_and_then_the_other() {
    let (l, r) = delayed(&bright(true), 120.0, &vec![0.0; 400], &impulse(400));
    assert_eq!(l[100], 0.5);
    assert_eq!(r[100], 0.0);
    assert_eq!(l[200], 0.0);
    assert_eq!(r[200], 0.25);
    assert_eq!(l[300], 0.125);
    assert_eq!(r[300], 0.0);
}

#[test]
fn a_synced_delay_follows_the_tempo() {
    let p = Params {
        delay_sync: true,
        delay_division: NoteDivision::Sixteenth,
        ..bright(false)
    };
    let (l, _) = delayed(&p, 120.0, &impulse(200), &vec![0.0; 200]);
    assert_eq!(l.iter().position(|x| *x == 1.0), Some(125));
    let (l, _) = delayed(&p, 150.0, &impulse(200), &vec![0.0; 200]);
    assert_eq!(l.iter().position(|x| *x == 1.0), Some(100));
}

#[test]
fn damping_darkens_every_repeat() {
    let p = Params { delay_damping: s(0.5), ..bright(false) };
    let (l, _) = delayed(&p, 120.0, &impulse(300), &vec![0.0; 300]);
    assert!((l[100] - 0.525).abs() < 1e-6, "the repeat keeps {}", l[100]);
    assert!(l[101] > 0.0 && l[101] < l[100]);
    assert!(l[200] < 0.5 * l[100]);
}

#[test]
fn a_centred_signal_stays_centred() {
    let source: Vec<f32> = (0..300).map(|i| (i as f32 * 0.4).sin()).collect();
    let p = Params { delay_damping: s(0.3), ..bright(false) };
    let (l, r) = delayed(&p, 120.0, &source, &source);
    assert_eq!(l, r);
}

#[test]
fn switched_off_the_delay_forgets() {
    let on = bright(false);
    let off = Params { delay_mix: s(0.0), ..on };
    let mut delay = StereoDelay::new(s(1000.0), curve);
    delay.snap(&on, s(120.0));
    let mut run = |p: &Params, first: f32| {
        let mut l = vec![s(0.0); BLOCK];
        let mut r = vec![s(0.0); BLOCK];
        l[0] = s(first);
        delay.process_chunk(&mut l, &mut r, p, s(120.0));
        l.into_iter().map(f).collect::<Vec<f32>>()
    };
    run(&on, 1.0);
    // One chunk to let the mix go, one to go out of the way.
    run(&off, 0.0);
    assert_eq!(run(&off, 0.7)[0], 0.7);
    for _ in 0..10 {
        assert!(run(&on, 0.0).iter().all(|x| *x == 0.0), "a repeat from before the bypass");
    }
}

#[test]
fn channels_of_two_lengths_are_processed_as_far_as_both_go() {
    let mut params = Params::default();
    params.delay_mix = s(0.5);
    params.reverb_mix = s(0.5);
    let dry: Vec<f32> = (0..100).map(|i| (i as f32 * 0.07).sin()).collect();
    for (a, b) in [(100, 70), (33, 64), (32, 100), (0, 5)] {
        let n = a.min(b);
        let mut chain = FxChain::new(SR);
        let mut even_l = dry[..n].to_vec();
        let mut even_r = dry[..n].to_vec();
        chain.process_block(&mut even_l, &mut even_r, &params, 120.0);

        let mut chain = FxChain::new(SR);
        let mut left: Vec<Single> = dry[..a].iter().map(|x| s(*x)).collect();
        let mut right: Vec<Single> = dry[..b].iter().map(|x| s(*x)).collect();
        chain.0.process_block(&mut left, &mut right, &params, s(120.0), curve);
        let left: Vec<f32> = left.into_iter().map(f).collect();
        let right: Vec<f32> = right.into_iter().map(f).collect();
        assert_eq!(&left[..n], &even_l[..]);
        assert_eq!(&right[..n], &even_r[..]);
        assert_eq!(&left[n..], &dry[n..a]);
        assert_eq!(&right[n..], &dry[n..b]);
    }
}
