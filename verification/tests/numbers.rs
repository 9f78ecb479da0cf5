use synth_core::double::Double;
use synth_core::{Rng, Single};

fn s(x: f32) -> Single {
    Single::from_bits(x.to_bits())
}

fn f(x: Single) -> f32 {
    f32::from_bits(x.to_bits())
}

fn d(x: f64) -> Double {
    Double { bits: x.to_bits() }
}

fn same(ours: Single, theirs: f32) -> bool {
    if theirs.is_nan() {
        ours.is_nan()
    } else {
        ours.to_bits() == theirs.to_bits()
    }
}

fn same_double(ours: Double, theirs: f64) -> bool {
    if theirs.is_nan() {
        ours.is_nan()
    } else {
        ours.bits == theirs.to_bits()
    }
}

const EDGES: [f32; 16] = [
    0.0,
    -0.0,
    1.0,
    -1.0,
    0.5,
    3.0,
    f32::MIN_POSITIVE,
    1e-45,
    -1e-45,
    1e-38,
    f32::MAX,
    f32::MIN,
    f32::INFINITY,
    f32::NEG_INFINITY,
    f32::NAN,
    16777217.0,
];

#[test]
fn the_edges_agree_with_the_hardware() {
    for a in EDGES {
        for b in EDGES {
            assert!(same(s(a).plus(s(b)), a + b), "{a} + {b}");
            assert!(same(s(a).minus(s(b)), a - b), "{a} - {b}");
            assert!(same(s(a).times(s(b)), a * b), "{a} * {b}");
            assert!(same(s(a).over(s(b)), a / b), "{a} / {b}");
            assert_eq!(s(a).lt(s(b)), a < b, "{a} < {b}");
            assert_eq!(s(a).le(s(b)), a <= b, "{a} <= {b}");
        }
        assert_eq!(s(a).to_whole(), a as u64, "{a} as u64");
        assert!(same(s(a).abs(), a.abs()) || a.is_nan());
    }
}

#[test]
fn random_patterns_agree_with_the_hardware() {
    let mut r = Rng::new(0xF10A7);
    for _ in 0..20_000 {
        let w = r.next_u64();
        let (a, b) = (f32::from_bits(w as u32), f32::from_bits((w >> 32) as u32));
        assert!(same(s(a).plus(s(b)), a + b), "{a} + {b}");
        assert!(same(s(a).minus(s(b)), a - b), "{a} - {b}");
        assert!(same(s(a).times(s(b)), a * b), "{a} * {b}");
        assert!(same(s(a).over(s(b)), a / b), "{a} / {b}");
    }
}

#[test]
fn random_doubles_agree_with_the_hardware() {
    let mut r = Rng::new(0xD0B1E);
    for _ in 0..20_000 {
        let (a, b) = (f64::from_bits(r.next_u64()), f64::from_bits(r.next_u64()));
        assert!(same_double(d(a).plus(d(b)), a + b), "{a} + {b}");
        assert!(same_double(d(a).minus(d(b)), a - b), "{a} - {b}");
        assert!(same_double(d(a).times(d(b)), a * b), "{a} * {b}");
        assert!(same_double(d(a).over(d(b)), a / b), "{a} / {b}");
        let narrowed = d(a).to_single();
        assert!(same(narrowed, a as f32), "{a} as f32");
    }
}

#[test]
fn widening_is_exact() {
    let mut r = Rng::new(77);
    for _ in 0..10_000 {
        let a = f32::from_bits(r.next_u64() as u32);
        assert!(same_double(Double::from_single(s(a)), a as f64), "{a} as f64");
    }
}

#[test]
fn whole_numbers_round_to_the_nearest() {
    for n in [0u64, 1, 2, 16777215, 16777216, 16777217, 16777219, 1 << 40, u64::MAX] {
        assert_eq!(f(Single::from_whole(n)), n as f32);
    }
    let mut r = Rng::new(3);
    for _ in 0..10_000 {
        let n = r.next_u64() >> (r.next_u64() % 64);
        assert_eq!(f(Single::from_whole(n)), n as f32);
        assert_eq!(Double::from_whole(n).bits, (n as f64).to_bits());
    }
}

#[test]
fn a_ratio_is_the_quotient() {
    for n in 0..200u32 {
        for m in 1..60u32 {
            assert_eq!(f(Single::ratio(n, m)), n as f32 / m as f32);
        }
    }
}

#[test]
fn scaling_truncates_the_rounded_product() {
    let mut r = Rng::new(123);
    for _ in 0..20_000 {
        let x = (r.next_u64() % 1_000_001) as f32 / 1_000_000.0;
        for k in [1u32, 8, 127, 255, 32767] {
            assert_eq!(s(x).scale(k), (x * k as f32) as u32, "{x} * {k}");
        }
    }
}

#[test]
fn clamping_and_choosing_the_larger() {
    assert_eq!(f(s(5.0).clamp(s(0.0), s(1.0))), 1.0);
    assert_eq!(f(s(-5.0).clamp(s(0.0), s(1.0))), 0.0);
    assert!(s(f32::NAN).clamp(s(0.0), s(1.0)).is_nan());
    assert_eq!(f(s(f32::NAN).max(s(2.0))), 2.0);
    assert_eq!(f(s(2.0).max(s(f32::NAN))), 2.0);
    assert_eq!(f(s(-3.0).max(s(2.0))), 2.0);
}
