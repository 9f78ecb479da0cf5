use synth_core::output::{
    add_return, bass_bus, chunk, downmix, finish, guard, join, legalise, mix_in, sidechain, soft_clip,
    synth_bus, tap, DcBlocker,
};
use synth_core::params::SidechainSource;
use synth_core::pool::Pool;
use synth_core::Single;

fn s(x: f32) -> Single {
    Single::from_bits(x.to_bits())
}

fn f(x: Single) -> f32 {
    f32::from_bits(x.to_bits())
}

fn many(xs: &[f32]) -> Vec<Single> {
    xs.iter().map(|x| s(*x)).collect()
}

fn plain(xs: &[Single]) -> Vec<f32> {
    xs.iter().map(|x| f(*x)).collect()
}

fn pool() -> Pool {
    Pool::new(1, 32)
}

#[test]
fn soft_clip_is_smooth_and_bounded() {
    let mut previous = f(soft_clip(s(-10.0)));
    let mut x = -10.0f32;
    while x < 10.0 {
        x += 0.001;
        let y = f(soft_clip(s(x)));
        assert!(y.abs() <= 2.0 / 3.0 + 1e-6);
        assert!((y - previous).abs() < 0.01, "discontinuity at {x}");
        previous = y;
    }
}

#[test]
fn soft_clip_is_the_cubic() {
    for x in [-0.99f32, -0.5, -0.0, 0.0, 0.1, 0.7, 0.999] {
        assert_eq!(f(soft_clip(s(x))), x - (x * x * x) / 3.0);
    }
    assert_eq!(f(soft_clip(s(1.0))), 2.0 / 3.0);
    assert_eq!(f(soft_clip(s(-5.0))), -2.0 / 3.0);
}

#[test]
fn nothing_illegal_reaches_the_device() {
    for (x, y) in [
        (0.5f32, 0.5f32),
        (3.0, 1.0),
        (-3.0, -1.0),
        (f32::INFINITY, 0.0),
        (f32::NEG_INFINITY, 0.0),
        (f32::NAN, 0.0),
    ] {
        assert_eq!(f(legalise(s(x))), y);
    }
    assert_eq!(f(guard(s(7.5))), 7.5);
    assert_eq!(f(guard(s(f32::NAN))), 0.0);
}

#[test]
fn finishing_levels_and_meters() {
    let mut bus = many(&[0.25, -0.75, 4.0, f32::NAN]);
    let peak = finish(&mut bus, s(0.5), s(0.1));
    assert_eq!(plain(&bus), vec![0.125, -0.375, 1.0, 0.0]);
    assert_eq!(f(peak), 1.0);
    let mut quiet = many(&[0.25]);
    assert_eq!(f(finish(&mut quiet, s(1.0), s(0.9))), 0.9);
}

#[test]
fn the_synth_bus_drives_blocks_and_levels() {
    let block = [0.5f32, 0.25, -2.0, 0.0];
    let (drive, gain, coef) = (1.5f32, 0.8f32, 0.998f32);
    let mut dc = DcBlocker::new(s(coef));
    let bus = synth_bus(&many(&block), s(drive), s(gain), &mut dc, &mut pool());
    let (mut x1, mut y1) = (0.0f32, 0.0f32);
    for (i, x) in block.iter().enumerate() {
        let driven = f(soft_clip(s(x * drive)));
        let blocked = driven - x1 + coef * y1;
        x1 = driven;
        y1 = blocked;
        assert_eq!(f(bus[i]), blocked * gain);
    }
    assert_eq!(f(dc.x1), x1);
    assert_eq!(f(dc.y1), y1);
}

#[test]
fn the_dc_blocker_recovers_from_a_nan() {
    let mut dc = DcBlocker::new(s(0.99));
    assert_eq!(f(dc.next(s(f32::NAN))), 0.0);
    // The sample after it still sees the NaN, and is guarded as well.
    assert_eq!(f(dc.next(s(0.5))), 0.0);
    assert_eq!(f(dc.next(s(0.75))), 0.25);
}

#[test]
fn buses_are_mixed_sample_by_sample() {
    let mut bus = many(&[1.0, 2.0]);
    mix_in(&mut bus, &many(&[0.5, 4.0]), s(0.5));
    assert_eq!(plain(&bus), vec![1.25, 4.0]);
    join(&mut bus, &many(&[1.0, -1.0]));
    assert_eq!(plain(&bus), vec![2.25, 3.0]);
    // The return is what the effects added, not what was sent.
    add_return(&mut bus, &many(&[0.75, 0.5]), &many(&[0.5, 0.5]));
    assert_eq!(plain(&bus), vec![2.5, 3.0]);
    assert_eq!(plain(&tap(&bus, s(0.5), &mut pool())), vec![1.25, 1.5]);
    assert_eq!(plain(&bass_bus(&many(&[2.0, f32::INFINITY]), s(0.25), &mut pool())), vec![0.5, 0.0]);
}

#[test]
fn a_zeroed_level_silences() {
    let bus = many(&[0.3, -0.7]);
    assert!(plain(&tap(&bus, s(0.0), &mut pool())).iter().all(|x| *x == 0.0));
}

#[test]
fn a_compressor_listens_where_it_is_told() {
    let (l, r, kick) = (many(&[1.0, 0.5]), many(&[0.0, 0.5]), many(&[0.25, 0.75]));
    assert_eq!(sidechain(SidechainSource::Off, &l, &r, &kick, 2, &mut pool()), None);
    let drums = sidechain(SidechainSource::DrumBus, &l, &r, &kick, 2, &mut pool()).unwrap();
    assert_eq!(plain(&drums), vec![0.5, 0.5]);
    let key = sidechain(SidechainSource::Kick, &l, &r, &kick, 1, &mut pool()).unwrap();
    assert_eq!(plain(&key), vec![0.25]);
    assert_eq!(f(downmix(s(0.3), s(0.3))), 0.3);
}

#[test]
fn chunks_are_at_most_a_block() {
    assert_eq!(chunk(0), 0);
    assert_eq!(chunk(31), 31);
    assert_eq!(chunk(32), 32);
    assert_eq!(chunk(33), 32);
}
