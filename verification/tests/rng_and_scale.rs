use synth_core::scale::{Scale, ScaleQuantizer};
use synth_core::{Rng, Single};

fn s(x: f32) -> Single {
    Single::from_bits(x.to_bits())
}

fn f(x: Single) -> f32 {
    f32::from_bits(x.to_bits())
}

#[test]
fn same_seed_same_sequence() {
    let mut a = Rng::new(42);
    let mut b = Rng::new(42);
    for _ in 0..1000 {
        assert_eq!(a.next_u64(), b.next_u64());
    }
}

#[test]
fn floats_stay_in_range() {
    let mut r = Rng::new(7);
    for _ in 0..100_000 {
        let x = f(r.next_f32());
        assert!((0.0..1.0).contains(&x));
    }
}

#[test]
fn weighted_respects_zero_weights() {
    let mut r = Rng::new(3);
    // Only index 2 can ever be chosen.
    let weights = vec![s(0.0), s(0.0), s(1.0), s(0.0)];
    for _ in 0..1000 {
        assert_eq!(r.weighted(&weights), 2);
    }
}

#[test]
fn a_zero_seed_still_draws() {
    let mut r = Rng::new(0);
    let first = r.next_u64();
    assert_ne!(first, 0);
    assert_ne!(first, r.next_u64());
}

#[test]
fn the_register_follows_xorshift() {
    // One step by hand: the register shifted, then multiplied.
    let mut x: u64 = 42;
    x ^= x >> 12;
    x ^= x << 25;
    x ^= x >> 27;
    let expected = x.wrapping_mul(0x2545_F491_4F6C_DD1D);
    assert_eq!(Rng::new(42).next_u64(), expected);
}

#[test]
fn below_stays_below_and_nothing_is_below_nothing() {
    let mut r = Rng::new(9);
    for n in 1..50usize {
        assert!(r.below(n) < n);
    }
    assert_eq!(r.below(0), 0);
}

#[test]
fn bipolar_draws_reach_both_sides() {
    let mut r = Rng::new(11);
    let draws: Vec<f32> = (0..1000).map(|_| f(r.next_bipolar())).collect();
    assert!(draws.iter().all(|x| (-1.0..1.0).contains(x)));
    assert!(draws.iter().any(|x| *x < -0.5) && draws.iter().any(|x| *x > 0.5));
}

#[test]
fn a_sure_thing_and_an_impossible_one() {
    let mut r = Rng::new(5);
    for _ in 0..200 {
        assert!(r.chance(s(1.0)));
        assert!(!r.chance(s(0.0)));
    }
}

#[test]
fn degree_zero_is_the_root() {
    let q = ScaleQuantizer::new(0, Scale::Major);
    // C4 is MIDI 60.
    assert_eq!(q.degree_to_midi(0, 4), 60);
}

#[test]
fn a_full_scale_length_is_an_octave() {
    for scale in Scale::ALL {
        let q = ScaleQuantizer::new(0, scale);
        let root = q.degree_to_midi(0, 4);
        let octave_up = q.degree_to_midi(scale.len() as i32, 4);
        assert_eq!(octave_up - root, 12, "{scale:?} octave was wrong");
    }
}

#[test]
fn negative_degrees_go_down_an_octave() {
    for scale in Scale::ALL {
        let q = ScaleQuantizer::new(0, scale);
        let root = q.degree_to_midi(0, 4);
        let octave_down = q.degree_to_midi(-(scale.len() as i32), 4);
        assert_eq!(root as i32 - octave_down as i32, 12, "{scale:?}");
    }
}

#[test]
fn c_major_is_the_white_keys() {
    let q = ScaleQuantizer::new(0, Scale::Major);
    let notes: Vec<u8> = (0..8).map(|d| q.degree_to_midi(d, 4)).collect();
    assert_eq!(notes, vec![60, 62, 64, 65, 67, 69, 71, 72]);
}

#[test]
fn every_generated_degree_is_in_the_scale() {
    for scale in Scale::ALL {
        for root in 0..12 {
            let q = ScaleQuantizer::new(root, scale);
            for degree in -30..30 {
                let n = q.degree_to_midi(degree, 4);
                assert!(q.contains(n), "{scale:?} root {root} degree {degree} -> {n}");
            }
        }
    }
}

#[test]
fn snap_lands_in_the_scale_and_stays_close() {
    for scale in Scale::ALL {
        for root in 0..12 {
            let q = ScaleQuantizer::new(root, scale);
            for note in 12..116u8 {
                let s = q.snap(note);
                assert!(q.contains(s), "{scale:?} snapped {note} to {s}, not in scale");
                // Never move a note more than a whole tone; anything more
                // and the melody would be unrecognisable after quantizing.
                assert!(
                    (s as i32 - note as i32).abs() <= 3,
                    "{scale:?} moved {note} to {s}"
                );
            }
        }
    }
}

#[test]
fn snap_leaves_in_scale_notes_alone() {
    let q = ScaleQuantizer::new(0, Scale::Major);
    for note in [60, 62, 64, 65, 67, 69, 71] {
        assert_eq!(q.snap(note), note);
    }
}

#[test]
fn chord_tones_are_weighted_up_on_the_beat() {
    let q = ScaleQuantizer::new(0, Scale::Major);
    let mut w = vec![s(0.0); 12];
    q.degree_weights(s(1.0), true, &mut w);
    let w: Vec<f32> = w.into_iter().map(f).collect();
    // Degrees 0, 2, 4 are the triad; 1, 3, 5, 6 are passing tones.
    assert!(w[0] > w[1]);
    assert!(w[2] > w[1]);
    assert!(w[4] > w[3]);
    // Passing tones still get a real chance.
    assert!(w[1] > 0.0);
}

#[test]
fn no_bias_means_flat_weights() {
    let q = ScaleQuantizer::new(0, Scale::Major);
    let mut w = vec![s(0.0); 12];
    q.degree_weights(s(0.0), true, &mut w);
    let w: Vec<f32> = w.into_iter().map(f).collect();
    for i in 0..7 {
        assert!((w[i] - 1.0).abs() < 1e-6);
    }
    // Degrees past the end of the scale must be unreachable.
    for i in 7..12 {
        assert_eq!(w[i], 0.0);
    }
}

#[test]
fn every_scale_has_its_number_and_its_name() {
    for (number, scale) in Scale::ALL.into_iter().enumerate() {
        assert_eq!(scale.to_u32(), number as u32);
        assert_eq!(Scale::from_u32(number as u32), scale);
        assert!(!scale.name().is_empty());
        assert!(!scale.is_empty());
        assert_eq!(scale.len(), scale.intervals().len());
    }
}

#[test]
fn a_zero_weight_is_never_picked_however_the_sum_rounds() {
    let mut r = Rng::new(11);
    let weights = vec![s(0.1), s(0.1), s(0.1), s(0.7), s(0.3), s(0.0), s(0.0)];
    for _ in 0..200_000 {
        let k = r.weighted(&weights);
        assert!(k < 5, "picked {k}, which weighs nothing");
    }
    // With nothing to pick from, the first.
    assert_eq!(r.weighted(&vec![s(0.0), s(0.0)]), 0);
}

#[test]
fn snap_finds_the_nearest_note_at_the_ends_of_the_range() {
    let q = ScaleQuantizer::new(8, Scale::MinorPentatonic);
    assert_eq!(q.snap(127), 126);
    for scale in Scale::ALL {
        for root in 0..12 {
            let q = ScaleQuantizer::new(root, scale);
            for note in 0..128u8 {
                let found = q.snap(note);
                assert!(q.contains(found) && found < 128);
                let distance = (found as i32 - note as i32).abs();
                for other in 0..128u8 {
                    let away = (other as i32 - note as i32).abs();
                    assert!(
                        !q.contains(other) || away >= distance,
                        "{scale:?} root {root}: {note} went to {found}, but {other} is nearer"
                    );
                }
            }
        }
    }
}
