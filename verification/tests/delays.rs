use synth_core::delay::NoteDivision;
use synth_core::line::{flush, DelayLine};
use synth_core::curve::Curve;
use synth_core::smooth::Smoothed;
use synth_core::Single;

fn s(x: f32) -> Single {
    Single::from_bits(x.to_bits())
}

fn f(x: Single) -> f32 {
    f32::from_bits(x.to_bits())
}

#[test]
fn divisions_are_the_right_length_at_120_bpm() {
    // At 120 BPM a quarter note is half a second.
    assert_eq!(f(NoteDivision::Quarter.seconds(s(120.0))), 0.5);
    assert_eq!(f(NoteDivision::Eighth.seconds(s(120.0))), 0.25);
    assert_eq!(f(NoteDivision::QuarterDot.seconds(s(120.0))), 0.75);
    assert_eq!(f(NoteDivision::Whole.seconds(s(120.0))), 2.0);
    assert!((f(NoteDivision::EighthTriplet.seconds(s(120.0))) - 1.0 / 6.0).abs() < 1e-6);
}

#[test]
fn division_length_scales_inversely_with_tempo() {
    assert_eq!(f(NoteDivision::Quarter.seconds(s(60.0))), 1.0);
    assert_eq!(f(NoteDivision::Quarter.seconds(s(240.0))), 0.25);
}

#[test]
fn an_absurd_tempo_still_gives_a_usable_delay_time() {
    // A clock reports no tempo before the first external tick arrives. Left
    // alone that is a division by zero and an infinite delay time.
    assert!(f(NoteDivision::Quarter.seconds(s(0.0))).is_finite());
    assert!(f(NoteDivision::Quarter.seconds(s(0.0))) > 0.0);
    assert!(f(NoteDivision::Quarter.seconds(s(f32::NAN))).is_finite());
    assert!(f(NoteDivision::Quarter.seconds(s(1.0e9))).is_finite());
}

#[test]
fn divisions_are_ordered_longest_first() {
    let lengths: Vec<f32> = NoteDivision::ALL.iter().map(|d| f(d.beats())).collect();
    for pair in lengths.windows(2) {
        assert!(pair[0] > pair[1], "{:?} is not descending", lengths);
    }
}

#[test]
fn every_variant_round_trips_through_u32() {
    for &division in &NoteDivision::ALL {
        assert_eq!(NoteDivision::from_u32(division as u32), division);
        assert_eq!(NoteDivision::from_u32(division.to_u32()), division);
        assert!(!division.name().is_empty());
    }
    // Out of range falls back rather than panicking: the value came across
    // an atomic from another thread and cannot be trusted.
    assert_eq!(NoteDivision::from_u32(999), NoteDivision::Eighth);
}

#[test]
fn capacity_is_a_power_of_two_that_holds_the_requested_delay() {
    let line = DelayLine::new(1000);
    assert!(line.capacity().is_power_of_two());
    assert!(line.capacity() > 1000);
    // No larger than it has to be.
    assert_eq!(line.capacity(), 1024);
    assert_eq!(DelayLine::new(0).capacity(), 2);
    assert_eq!(DelayLine::new(1024).capacity(), 2048);
}

#[test]
fn an_integer_read_returns_the_sample_written_there() {
    let mut line = DelayLine::new(16);
    line.write(s(1.0));
    line.write(s(2.0));
    line.write(s(3.0));
    assert_eq!(f(line.read(0)), 3.0);
    assert_eq!(f(line.read(1)), 2.0);
    assert_eq!(f(line.read(2)), 1.0);
}

#[test]
fn a_fractional_read_interpolates_between_neighbours() {
    let mut line = DelayLine::new(16);
    line.write(s(1.0));
    line.write(s(2.0));
    line.write(s(3.0));
    // Halfway between read(1) = 2.0 and read(2) = 1.0.
    assert_eq!(f(line.read_frac(s(1.5))), 1.5);
    // The integer positions still agree with `read`.
    assert_eq!(f(line.read_frac(s(0.0))), 3.0);
    assert_eq!(f(line.read_frac(s(2.0))), 1.0);
}

#[test]
fn reads_stay_correct_after_the_write_cursor_wraps() {
    let mut line = DelayLine::new(8);
    let capacity = line.capacity();
    // Three full laps of the buffer.
    for i in 0..capacity * 3 {
        line.write(s(i as f32));
    }
    let last = (capacity * 3 - 1) as f32;
    assert_eq!(f(line.read(0)), last);
    assert_eq!(f(line.read(1)), last - 1.0);
    assert_eq!(f(line.read(capacity - 1)), last - (capacity - 1) as f32);
}

#[test]
fn a_read_older_than_the_buffer_clamps_instead_of_aliasing() {
    let mut line = DelayLine::new(8);
    let capacity = line.capacity();
    for i in 0..capacity {
        line.write(s(i as f32));
    }
    let oldest = line.read(capacity - 1);
    // Asking for more history than exists must not silently wrap around to
    // a recent sample, which would sound like a completely wrong delay.
    assert_eq!(line.read(capacity), oldest);
    assert_eq!(line.read(100_000), oldest);
    assert_eq!(line.read_frac(s(1.0e9)), oldest);
    assert_eq!(line.read_frac(s(-5.0)), line.read(0));
}

#[test]
fn a_fractional_read_with_non_finite_values_clamps_consistently() {
    let mut line = DelayLine::new(8);
    let capacity = line.capacity();
    // Write distinguishable values so tests can't accidentally pass on equal samples.
    for i in 0..capacity {
        line.write(s((i as f32) * 10.0));
    }
    let newest = line.read(0);
    let oldest = line.read(capacity - 1);
    // Positive infinity should clamp to the oldest sample, not to newest.
    assert_eq!(line.read_frac(s(f32::INFINITY)), oldest);
    // Negative infinity should clamp to the newest sample.
    assert_eq!(line.read_frac(s(f32::NEG_INFINITY)), newest);
    // NaN should clamp to the newest sample and not propagate.
    assert_eq!(line.read_frac(s(f32::NAN)), newest);
}

#[test]
fn clear_empties_the_buffer() {
    let mut line = DelayLine::new(8);
    for _ in 0..8 {
        line.write(s(1.0));
    }
    line.clear();
    assert_eq!(f(line.read(0)), 0.0);
    assert_eq!(f(line.read(4)), 0.0);
}

#[test]
fn denormals_are_flushed_on_the_way_in() {
    let mut line = DelayLine::new(8);
    for tiny in [1e-21f32, -1e-21, 1e-40, -1e-40] {
        line.write(s(tiny));
        assert_eq!(line.read(0).to_bits(), 0);
        assert_eq!(flush(s(tiny)).to_bits(), 0);
    }
    line.write(s(-1e-19));
    assert_eq!(f(line.read(0)), -1e-19);
}

fn smoother(initial: f32, time_ms: f32, control_rate: f32) -> Smoothed {
    let coef = match Smoothed::time_steps(s(time_ms), s(control_rate)) {
        Some(steps) => (-1.0 / f(steps)).exp(),
        None => 0.0,
    };
    Smoothed::new(s(initial), s(coef))
}

#[test]
fn smoothed_converges_without_overshoot() {
    let mut x = smoother(0.0, 10.0, 1500.0);
    x.set_target(s(1.0));
    let mut prev = 0.0;
    for _ in 0..1000 {
        let v = f(x.next());
        assert!(v >= prev - 1e-6, "went backwards");
        assert!(v <= 1.0 + 1e-6, "overshot to {v}");
        prev = v;
    }
    assert!((f(x.value()) - 1.0).abs() < 1e-4);
}

#[test]
fn a_snap_leaves_nothing_to_glide_from() {
    let mut x = smoother(0.0, 10.0, 1500.0);
    x.snap(s(0.25));
    assert_eq!(f(x.next()), 0.25);
    x.set_target(s(0.75));
    x.snap_to_target();
    assert_eq!(f(x.value()), 0.75);
    assert_eq!(f(x.next()), 0.75);
}

#[test]
fn a_time_of_a_step_or_less_does_not_smooth() {
    assert_eq!(Smoothed::time_steps(s(0.5), s(1500.0)), None);
    assert_eq!(Smoothed::time_steps(s(10.0), s(1500.0)), Some(s(0.01 * 1500.0)));
    let mut x = smoother(0.0, 0.5, 1500.0);
    x.set_target(s(1.0));
    assert_eq!(f(x.next()), 1.0);
    x.coef = s(0.5);
    x.set_target(s(0.0));
    assert_eq!(f(x.next()), 0.5);
}

#[test]
fn a_coefficient_lies_between_zero_and_one_at_any_rate() {
    let curve = |c: Curve, x: Single| match c {
        Curve::Exponential => s(f(x).exp()),
        _ => s(0.0),
    };
    for rate in [0.0, 1.0e-40, 30.0, 250.0, 1500.0, 1.0e30, f32::INFINITY] {
        for ms in [25.0, 120.0] {
            let mut x = Smoothed::new(s(0.0), s(0.5));
            x.set_time(s(ms), s(rate), curve);
            let coef = f(x.coef);
            assert!((0.0..=1.0).contains(&coef), "{coef} for {ms} ms at {rate}");
        }
    }
    let mut x = Smoothed::new(s(0.0), s(0.5));
    x.set_time(s(120.0), s(1500.0), curve);
    assert_eq!(f(x.coef), (-1.0f32 / (120.0 / 1000.0 * 1500.0)).exp());
    x.set_time(s(25.0), s(30.0), curve);
    assert_eq!(f(x.coef), 0.0);
}

#[test]
fn a_line_remembers_the_latest_writes_and_what_was_before_them() {
    let mut line = DelayLine::new(7);
    assert_eq!(line.capacity(), 8);
    for i in 0..5 {
        line.write(s(1.0 + i as f32));
    }
    let held: Vec<f32> = (0..8).map(|d| f(line.read(d))).collect();
    assert_eq!(held, [5.0, 4.0, 3.0, 2.0, 1.0, 0.0, 0.0, 0.0]);
}
