use synth_core::curve::Curve;
use synth_core::display as panel;
use synth_core::display::FilterLook;
use synth_core::env::AdsrSettings;
use synth_core::filter::{Slope, SvfMode};
use synth_core::piano::{note_under, Piano};
use synth_core::text;
use synth_core::ui::Scaling;
use synth_core::Single;

fn s(x: f32) -> Single {
    Single::from_bits(x.to_bits())
}

fn f(x: Single) -> f32 {
    f32::from_bits(x.to_bits())
}

fn curve(c: Curve, x: Single) -> Single {
    let x = f(x);
    s(match c {
        Curve::Sine => x.sin(),
        Curve::Cosine => x.cos(),
        Curve::Tangent => x.tan(),
        Curve::Exponential => x.exp(),
        Curve::TwoTo => x.exp2(),
        Curve::TenTo => 10.0f32.powf(x),
        Curve::Logarithm => x.ln(),
        Curve::BinaryLogarithm => x.log2(),
        Curve::DecimalLogarithm => x.log10(),
        Curve::SquareRoot => x.sqrt(),
        Curve::Power(base) => f(base).powf(x),
    })
}

/// A knob's range.
struct KnobSpec {
    lo: f32,
    hi: f32,
    scaling: Scaling,
}

fn spec() -> KnobSpec {
    KnobSpec { lo: 20.0, hi: 20000.0, scaling: Scaling::Logarithmic }
}

fn to_normalised(value: f32, spec: &KnobSpec) -> f32 {
    f(panel::to_normalised(s(value), s(spec.lo), s(spec.hi), spec.scaling, curve))
}

fn from_normalised(t: f32, spec: &KnobSpec) -> f32 {
    f(panel::from_normalised(s(t), s(spec.lo), s(spec.hi), spec.scaling, curve))
}

fn svf_magnitude(omega: f32, k: f32, mode: SvfMode) -> f32 {
    f(panel::svf_magnitude(s(omega), s(k), mode, curve))
}

fn format_value(value: f32, unit: &str) -> String {
    text::format_value(s(value), unit)
}

fn gain_reduction_label(gr_db: f32) -> String {
    text::gain_reduction_label(s(gr_db))
}

#[test]
fn normalisation_round_trips() {
    let spec = spec();
    for value in [20.0f32, 100.0, 440.0, 5000.0, 20000.0] {
        let back = from_normalised(to_normalised(value, &spec), &spec);
        assert!((back - value).abs() < value * 0.001, "{value} came back as {back}");
    }
}

#[test]
fn logarithmic_puts_the_midpoint_where_the_ear_expects() {
    let spec = spec();
    let midpoint = from_normalised(0.5, &spec);
    // Geometric mean of 20 and 20000 is ~632 Hz.
    assert!((500.0..800.0).contains(&midpoint), "midpoint was {midpoint} Hz");

    let linear = KnobSpec { lo: 20.0, hi: 20000.0, scaling: Scaling::Linear };
    assert!(from_normalised(0.5, &linear) > 9000.0);
}

#[test]
fn normalisation_clamps_out_of_range_values() {
    let spec = spec();
    assert_eq!(to_normalised(-100.0, &spec), 0.0);
    assert_eq!(to_normalised(1e9, &spec), 1.0);
}

#[test]
fn logarithmic_survives_a_zero_lower_bound() {
    let spec = KnobSpec { lo: 0.0, hi: 20.0, scaling: Scaling::Logarithmic };
    for t in [0.0f32, 0.5, 1.0] {
        assert!(from_normalised(t, &spec).is_finite());
    }
    assert!(to_normalised(0.0, &spec).is_finite());
}

#[test]
fn a_knob_turned_past_its_end_stays_there() {
    let spec = spec();
    assert_eq!(from_normalised(-3.0, &spec), from_normalised(0.0, &spec));
    assert_eq!(from_normalised(7.0, &spec), from_normalised(1.0, &spec));
    assert_eq!(from_normalised(0.0, &spec), 20.0);
    assert_eq!(from_normalised(0.25, &KnobSpec { lo: -2.0, hi: 2.0, scaling: Scaling::Linear }), -1.0);
}

#[test]
fn filter_response_matches_the_expected_shapes() {
    // Well below cutoff, a lowpass passes and a highpass does not.
    assert!(svf_magnitude(0.01, 1.0, SvfMode::Lowpass) > 0.99);
    assert!(svf_magnitude(0.01, 1.0, SvfMode::Highpass) < 0.01);
    // Well above, the reverse.
    assert!(svf_magnitude(100.0, 1.0, SvfMode::Lowpass) < 0.01);
    assert!(svf_magnitude(100.0, 1.0, SvfMode::Highpass) > 0.99);
    // Bandpass peaks at the corner; notch nulls there.
    assert!(svf_magnitude(1.0, 1.0, SvfMode::Bandpass) > 0.99);
    assert!(svf_magnitude(1.0, 1.0, SvfMode::Notch) < 0.01);
}

#[test]
fn resonance_raises_the_displayed_peak() {
    let damped = svf_magnitude(1.0, 2.0, SvfMode::Lowpass);
    let resonant = svf_magnitude(1.0, 0.1, SvfMode::Lowpass);
    assert!(resonant > damped * 5.0);
}

#[test]
fn every_response_value_is_finite() {
    for mode in SvfMode::ALL {
        for k in [0.025f32, 0.5, 1.0, 2.0] {
            for omega in [0.0f32, 0.001, 1.0, 1000.0] {
                let g = svf_magnitude(omega, k, mode);
                assert!(g.is_finite(), "{mode:?} k={k} w={omega} gave {g}");
            }
        }
    }
}

#[test]
fn values_format_without_absurd_precision() {
    assert_eq!(format_value(8532.7, "Hz"), "8533 Hz");
    assert_eq!(format_value(0.25, ""), "0.250");
    assert_eq!(format_value(12.5, "st"), "12.5 st");
}

#[test]
fn no_reduction_reads_as_a_dash_rather_than_zero_decibels() {
    assert_eq!(gain_reduction_label(0.0), "--");
}

#[test]
fn reduction_reads_as_negative_decibels() {
    assert_eq!(gain_reduction_label(4.5), "-4.5 dB");
}

#[test]
fn a_reduction_too_small_to_see_still_reads_as_a_dash() {
    assert_eq!(gain_reduction_label(0.02), "--");
}

#[test]
fn numbers_are_written_as_the_machine_writes_them() {
    let mut x = 0x1234_5678u32;
    for i in 0..4000 {
        x ^= x << 13;
        x ^= x >> 17;
        x ^= x << 5;
        // Every pattern at first, then sizes that a panel shows.
        let value = if i < 1000 {
            f32::from_bits(x)
        } else {
            (x as f32 / u32::MAX as f32 - 0.5) * [2.0, 20.0, 200.0, 2e5][i % 4]
        };
        assert_eq!(text::fixed(s(value), 1), format!("{value:.1}"));
        assert_eq!(text::fixed(s(value), 2), format!("{value:.2}"));
        assert_eq!(text::fixed(s(value), 3), format!("{value:.3}"));
        if value.abs() >= 1.0 || value.is_nan() {
            assert_eq!(text::fixed(s(value), 0), format!("{value:.0}"));
        }
    }
    for value in [0.0f32, -0.0, 0.0625, 0.1875, 2.5, 3.5, 0.25, 0.75, f32::MAX, f32::MIN_POSITIVE] {
        assert_eq!(text::fixed(s(value), 1), format!("{value:.1}"));
        assert_eq!(text::fixed(s(value), 3), format!("{value:.3}"));
    }
    assert_eq!(text::fixed(s(f32::INFINITY), 2), "inf");
    assert_eq!(text::fixed(s(f32::NEG_INFINITY), 2), "-inf");
    assert_eq!(text::fixed(s(f32::NAN), 2), "NaN");
}

#[test]
fn the_filter_curve_is_flat_and_then_falls() {
    let look = |slope| FilterLook {
        mode: SvfMode::Lowpass,
        slope,
        cutoff: s(1000.0),
        resonance: s(0.0),
    };
    let gentle = look(Slope::Db12).points(curve);
    let steep = look(Slope::Db24).points(curve);
    assert_eq!(gentle.len(), 121);
    assert_eq!(f(gentle[0].0), 0.0);
    assert_eq!(f(gentle[120].0), 1.0);
    // Unity is 48 of 72 decibels up.
    assert!((f(gentle[0].1) - 48.0 / 72.0).abs() < 1e-3);
    assert!(f(gentle[90].1) < 0.5, "well past the cutoff");
    assert!(f(steep[90].1) < f(gentle[90].1));
    let place = f(panel::place_frequency(s(1000.0), curve));
    assert!((place - 0.5663).abs() < 1e-3, "the cutoff stands at {place}");
    assert_eq!(f(panel::place_frequency(s(5.0), curve)), 0.0);
}

#[test]
fn the_envelope_curve_goes_through_its_corners() {
    let e = AdsrSettings {
        attack: s(0.25),
        decay: s(0.25),
        sustain: s(0.5),
        release: s(0.25),
    };
    let v: Vec<(f32, f32)> =
        panel::envelope_points(&e, curve).into_iter().map(|(x, y)| (f(x), f(y))).collect();
    assert_eq!(v.len(), 38);
    assert_eq!(v[0], (0.0, 0.0));
    assert_eq!(v[12], (0.25, 1.0));
    assert!((v[24].1 - (0.5 + 0.5 * (-4.0f32).exp())).abs() < 1e-6);
    assert_eq!(v[25], (0.75, 0.5));
    assert_eq!(v[37].0, 1.0);
    assert_eq!(f(panel::envelope_let_go(&e)), 0.75);
    for pair in v.windows(2) {
        assert!(pair[0].0 <= pair[1].0, "time runs backwards");
    }
}

#[test]
fn the_meter_reads_in_decibels() {
    assert_eq!(f(panel::place_level(s(1.0), curve)), 1.0);
    assert_eq!(f(panel::place_level(s(0.0), curve)), 0.0);
    assert!((f(panel::place_level(s(0.5), curve)) - (48.0 - 6.0206) / 48.0).abs() < 1e-4);
}

fn two_octaves() -> Piano {
    Piano {
        base: 60,
        octaves: 2,
        left: s(100.0),
        top: s(50.0),
        width: s(280.0),
        height: s(60.0),
    }
}

#[test]
fn the_piano_has_its_keys_in_place() {
    let keys = two_octaves().keys();
    assert_eq!(keys.len(), 24);
    assert!(keys[..14].iter().all(|k| !k.black));
    assert!(keys[14..].iter().all(|k| k.black));
    let mut notes: Vec<u8> = keys.iter().map(|k| k.note).collect();
    notes.sort();
    assert_eq!(notes, (60..84).collect::<Vec<u8>>());
    assert_eq!(f(keys[1].area.left), 120.0);
    assert_eq!(f(keys[1].area.right), 139.0);
    assert_eq!(f(keys[1].area.bottom), 110.0);
    let named: Vec<u8> = keys.iter().filter(|k| k.named).map(|k| k.note).collect();
    assert_eq!(named, [60, 72]);
}

#[test]
fn a_black_key_is_pressed_before_the_white_one_below_it() {
    let keys = two_octaves().keys();
    let press = |x: f32, y: f32| note_under(&keys, s(x), s(y));
    // High up between C and D lies C sharp; further down they are themselves.
    assert_eq!(press(118.0, 60.0), Some(61));
    assert_eq!(press(122.0, 60.0), Some(61));
    assert_eq!(press(118.0, 100.0), Some(60));
    assert_eq!(press(122.0, 100.0), Some(62));
    // No black key between E and F.
    assert_eq!(press(158.0, 60.0), Some(64));
    assert_eq!(press(162.0, 60.0), Some(65));
    // Gaps and the outside hold nothing.
    assert_eq!(press(119.5, 100.0), None);
    assert_eq!(press(99.0, 60.0), None);
    assert_eq!(press(120.0, 111.0), None);
}

#[test]
fn the_piano_ends_with_the_notes() {
    let keys = Piano { base: 120, ..two_octaves() }.keys();
    assert_eq!(keys.iter().map(|k| k.note).max(), Some(127));
    assert_eq!(keys.len(), 8);
}
