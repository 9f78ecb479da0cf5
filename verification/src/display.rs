//! What the panel draws: a value's place on its knob, the shapes of filters and envelopes,
//! and levels. Places run from zero to one, across and up.

use crate::bounds;
use crate::curve;
use crate::curve::{read, Curve};
use crate::env::AdsrSettings;
use crate::filter::{Slope, SvfMode};
use crate::params::of;
use crate::single::Single;
use crate::ui::{from_linear, to_linear, Scaling};
use vstd::prelude::*;

verus! {

// --- Knobs ---
/// The bounds of a logarithmic knob. One that is not positive has no logarithm, and would
/// poison the whole knob.
pub open spec fn octave_bounds(lo: Single, hi: Single) -> (Single, Single) {
    let low = lo.larger(of(0x3586_37BD));
    (low, hi.larger(low.product(of(0x3F80_0347))))
}

fn octaves_between(lo: Single, hi: Single) -> (b: (Single, Single))
    ensures
        b == octave_bounds(lo, hi),
{
    let low: Single = lo.max(of(0x3586_37BD));
    (low, hi.max(low.times(of(0x3F80_0347))))
}

/// A value's place on a knob.
pub open spec fn place_of<F: Fn(Curve, Single) -> Single>(
    f: F,
    value: Single,
    lo: Single,
    hi: Single,
    scaling: Scaling,
) -> Single {
    match scaling {
        Scaling::Linear => value.difference(lo).quotient(hi.difference(lo)),
        Scaling::Logarithmic => {
            let (low, high) = octave_bounds(lo, hi);
            let held = value.clamped(low, high);
            curve::at(f, Curve::BinaryLogarithm, held.quotient(low)).quotient(
                curve::at(f, Curve::BinaryLogarithm, high.quotient(low)),
            )
        },
    }.clamped(of(0), of(0x3F80_0000))
}

/// The value at a place on a knob.
pub open spec fn value_at<F: Fn(Curve, Single) -> Single>(
    f: F,
    t: Single,
    lo: Single,
    hi: Single,
    scaling: Scaling,
) -> Single {
    let place = t.clamped(of(0), of(0x3F80_0000));
    match scaling {
        Scaling::Linear => lo.sum(hi.difference(lo).product(place)),
        Scaling::Logarithmic => {
            let (low, high) = octave_bounds(lo, hi);
            low.product(curve::at(f, Curve::Power(high.quotient(low)), place))
        },
    }
}

/// Maps a value to its place within a range.
pub fn to_normalised<F: Fn(Curve, Single) -> Single + Copy>(
    value: Single,
    lo: Single,
    hi: Single,
    scaling: Scaling,
    f: F,
) -> (t: Single)
    requires
        curve::gives_curves(f),
    ensures
        t == place_of(f, value, lo, hi, scaling),
{
    match scaling {
        Scaling::Linear => to_linear(value, lo, hi),
        Scaling::Logarithmic => {
            let (low, high): (Single, Single) = octaves_between(lo, hi);
            let held: Single = if value.lt(low) {
                low
            } else if high.lt(value) {
                high
            } else {
                value
            };
            let whole: Single = read(f, Curve::BinaryLogarithm, high.over(low));
            read(f, Curve::BinaryLogarithm, held.over(low)).over(whole).clamp(
                of(0),
                of(0x3F80_0000),
            )
        },
    }
}

/// The value at a place within a range.
pub fn from_normalised<F: Fn(Curve, Single) -> Single + Copy>(
    t: Single,
    lo: Single,
    hi: Single,
    scaling: Scaling,
    f: F,
) -> (value: Single)
    requires
        curve::gives_curves(f),
    ensures
        value == value_at(f, t, lo, hi, scaling),
{
    match scaling {
        Scaling::Linear => from_linear(t, lo, hi),
        Scaling::Logarithmic => {
            let place: Single = t.clamp(of(0), of(0x3F80_0000));
            let (low, high): (Single, Single) = octaves_between(lo, hi);
            low.times(read(f, Curve::Power(high.over(low)), place))
        },
    }
}

/// No value's place leaves the knob's travel, whatever the range.
pub proof fn law_a_place_stays_on_the_knob<F: Fn(Curve, Single) -> Single>(
    f: F,
    value: Single,
    lo: Single,
    hi: Single,
    scaling: Scaling,
)
    ensures
        place_of(f, value, lo, hi, scaling).nan() || bounds::in_unit(
            place_of(f, value, lo, hi, scaling),
        ),
{
    bounds::lemma_unit();
}

/// Turning a knob past either end gives what the end gives.
pub proof fn law_a_knob_stops_at_its_ends<F: Fn(Curve, Single) -> Single>(
    f: F,
    t: Single,
    lo: Single,
    hi: Single,
    scaling: Scaling,
)
    ensures
        t.below(of(0)) ==> value_at(f, t, lo, hi, scaling) == value_at(
            f,
            of(0),
            lo,
            hi,
            scaling,
        ),
        of(0x3F80_0000).below(t) ==> value_at(f, t, lo, hi, scaling) == value_at(
            f,
            of(0x3F80_0000),
            lo,
            hi,
            scaling,
        ),
{
    bounds::lemma_unit();
}

// --- The filter's curve ---
/// What the analogue prototype of the filter lets through at a frequency over its cutoff,
/// with a damping.
pub open spec fn gain_at<F: Fn(Curve, Single) -> Single>(
    f: F,
    omega: Single,
    damping: Single,
    mode: SvfMode,
) -> Single {
    let one = of(0x3F80_0000);
    let square = omega.product(omega);
    let off = one.difference(square);
    let across = damping.product(omega);
    let below = curve::at(
        f,
        Curve::SquareRoot,
        off.product(off).sum(across.product(across)),
    ).larger(of(0x3089_705F));
    match mode {
        SvfMode::Lowpass => one.quotient(below),
        SvfMode::Highpass => square.quotient(below),
        SvfMode::Bandpass => across.quotient(below),
        SvfMode::Notch => off.size().quotient(below),
        SvfMode::Peak => one.sum(square).quotient(below),
        SvfMode::Bypass => one,
    }
}

/// Magnitude of the analogue prototype of the filter at a normalised frequency: `omega`
/// is frequency over cutoff, `k` the damping.
pub fn svf_magnitude<F: Fn(Curve, Single) -> Single + Copy>(
    omega: Single,
    k: Single,
    mode: SvfMode,
    f: F,
) -> (g: Single)
    requires
        curve::gives_curves(f),
    ensures
        g == gain_at(f, omega, k, mode),
{
    let one: Single = of(0x3F80_0000);
    let square: Single = omega.times(omega);
    let off: Single = one.minus(square);
    let across: Single = k.times(omega);
    let below: Single = read(
        f,
        Curve::SquareRoot,
        off.times(off).plus(across.times(across)),
    ).max(of(0x3089_705F));
    match mode {
        SvfMode::Lowpass => one.over(below),
        SvfMode::Highpass => square.over(below),
        SvfMode::Bandpass => across.over(below),
        SvfMode::Notch => off.abs().over(below),
        SvfMode::Peak => one.plus(square).over(below),
        SvfMode::Bypass => one,
    }
}

/// How many decades the display spans, from 20 Hz to 20 kHz.
pub open spec fn decades<F: Fn(Curve, Single) -> Single>(f: F) -> Single {
    curve::at(f, Curve::DecimalLogarithm, of(0x469C_4000).quotient(of(0x41A0_0000)))
}

/// Where a frequency stands on the display.
pub open spec fn frequency_place<F: Fn(Curve, Single) -> Single>(f: F, hz: Single) -> Single {
    curve::at(
        f,
        Curve::DecimalLogarithm,
        hz.clamped(of(0x41A0_0000), of(0x469C_4000)).quotient(of(0x41A0_0000)),
    ).quotient(decades(f))
}

pub fn place_frequency<F: Fn(Curve, Single) -> Single + Copy>(hz: Single, f: F) -> (t: Single)
    requires
        curve::gives_curves(f),
    ensures
        t == frequency_place(f, hz),
{
    let span: Single = read(f, Curve::DecimalLogarithm, of(0x469C_4000).over(of(0x41A0_0000)));
    let held: Single = hz.clamp(of(0x41A0_0000), of(0x469C_4000));
    read(f, Curve::DecimalLogarithm, held.over(of(0x41A0_0000))).over(span)
}

/// The damping of a stage at a resonance.
pub open spec fn damping_of(resonance: Single) -> Single {
    of(0x4000_0000).difference(of(0x4000_0000).product(resonance)).larger(of(0x3CCC_CCCD))
}

/// What the display plots: the filter as the panel has it.
pub struct FilterLook {
    pub mode: SvfMode,
    pub slope: Slope,
    pub cutoff: Single,
    pub resonance: Single,
}

impl FilterLook {
    /// What the filter lets through at a frequency. The second stage runs at half the
    /// resonance.
    pub open spec fn gain<F: Fn(Curve, Single) -> Single>(self, f: F, hz: Single) -> Single {
        let omega = hz.quotient(self.cutoff.larger(of(0x3F80_0000)));
        let r = self.resonance.clamped(of(0), of(0x3F80_0000));
        let first = gain_at(f, omega, damping_of(r), self.mode);
        match self.slope {
            Slope::Db12 => first,
            Slope::Db24 => first.product(
                gain_at(f, omega, damping_of(r.product(of(0x3F00_0000))), self.mode),
            ),
        }
    }

    /// How high a gain is drawn: in decibels, from 48 below unity at the bottom to 24
    /// above it at the top.
    pub open spec fn height<F: Fn(Curve, Single) -> Single>(f: F, gain: Single) -> Single {
        of(0x41A0_0000).product(
            curve::at(f, Curve::DecimalLogarithm, gain.larger(of(0x3727_C5AC))),
        ).sum(of(0x4240_0000)).quotient(of(0x4290_0000)).clamped(of(0), of(0x3F80_0000))
    }

    /// One of the points of the curve, of 121 from left to right.
    pub open spec fn point<F: Fn(Curve, Single) -> Single>(self, f: F, i: int) -> (Single, Single) {
        let t = Single::nearest_to(i).quotient(of(0x42F0_0000));
        let hz = of(0x41A0_0000).product(curve::at(f, Curve::TenTo, decades(f).product(t)));
        (t, FilterLook::height(f, self.gain(f, hz)))
    }

    fn measure<F: Fn(Curve, Single) -> Single + Copy>(&self, hz: Single, f: F) -> (g: Single)
        requires
            curve::gives_curves(f),
        ensures
            g == self.gain(f, hz),
    {
        let omega: Single = hz.over(self.cutoff.max(of(0x3F80_0000)));
        let two: Single = of(0x4000_0000);
        let least: Single = of(0x3CCC_CCCD);
        let r: Single = self.resonance.clamp(of(0), of(0x3F80_0000));
        let first: Single = svf_magnitude(omega, two.minus(two.times(r)).max(least), self.mode, f);
        match self.slope {
            Slope::Db12 => first,
            Slope::Db24 => {
                let half: Single = r.times(of(0x3F00_0000));
                let k: Single = two.minus(two.times(half)).max(least);
                first.times(svf_magnitude(omega, k, self.mode, f))
            },
        }
    }

    /// The curve of the filter's magnitude.
    pub fn points<F: Fn(Curve, Single) -> Single + Copy>(&self, f: F) -> (v: Vec<(Single, Single)>)
        requires
            curve::gives_curves(f),
        ensures
            v@ == Seq::new(121, |i: int| self.point(f, i)),
    {
        let span: Single = read(
            f,
            Curve::DecimalLogarithm,
            of(0x469C_4000).over(of(0x41A0_0000)),
        );
        let mut v: Vec<(Single, Single)> = Vec::with_capacity(121);
        let mut i: u64 = 0;
        while i <= 120
            invariant
                i <= 121,
                curve::gives_curves(f),
                span == decades(f),
                v@ == Seq::new(i as nat, |k: int| self.point(f, k)),
            decreases 121 - i,
        {
            let t: Single = Single::from_whole(i).over(of(0x42F0_0000));
            let hz: Single = of(0x41A0_0000).times(read(f, Curve::TenTo, span.times(t)));
            let gain: Single = self.measure(hz, f);
            let db: Single = of(0x41A0_0000).times(
                read(f, Curve::DecimalLogarithm, gain.max(of(0x3727_C5AC))),
            );
            let up: Single = db.plus(of(0x4240_0000)).over(of(0x4290_0000)).clamp(
                of(0),
                of(0x3F80_0000),
            );
            v.push((t, up));
            i = i + 1;
            assert(v@ =~= Seq::new(i as nat, |k: int| self.point(f, k)));
        }
        v
    }
}

// --- The envelope's curve ---
/// How far one of the twelve points of a stage is through it.
pub open spec fn through(i: int) -> Single {
    Single::nearest_to(i).quotient(of(0x4140_0000))
}

/// What the display plots of an envelope. A hold of fixed length keeps the sustain visible
/// where its stages are short.
pub open spec fn envelope_length(e: AdsrSettings) -> Single {
    e.attack.sum(e.decay).sum(of(0x3E80_0000)).sum(e.release).larger(of(0x3A83_126F))
}

/// Where the note is let go.
pub open spec fn let_go_place(e: AdsrSettings) -> Single {
    e.attack.sum(e.decay).sum(of(0x3E80_0000)).quotient(envelope_length(e))
}

/// A point of the curve: a time and a level.
pub open spec fn envelope_point(e: AdsrSettings, time: Single, level: Single) -> (Single, Single) {
    (time.quotient(envelope_length(e)), level.clamped(of(0), of(0x3F80_0000)))
}

/// How much of a fall is left.
pub open spec fn left_over<F: Fn(Curve, Single) -> Single>(f: F, i: int) -> Single {
    curve::at(f, Curve::Exponential, of(0xC080_0000).product(through(i)))
}

/// One of the 38 points of an envelope's curve: the start, twelve of a near-linear attack,
/// twelve of a decay towards the sustain, its end, and twelve of the release.
pub open spec fn envelope_at<F: Fn(Curve, Single) -> Single>(f: F, e: AdsrSettings, i: int) -> (
    Single,
    Single,
) {
    let held = e.attack.sum(e.decay).sum(of(0x3E80_0000));
    if i == 0 {
        envelope_point(e, of(0), of(0))
    } else if i <= 12 {
        envelope_point(
            e,
            e.attack.product(through(i)),
            curve::at(f, Curve::Power(through(i)), of(0x3F40_0000)),
        )
    } else if i <= 24 {
        envelope_point(
            e,
            e.attack.sum(e.decay.product(through(i - 12))),
            e.sustain.sum(
                of(0x3F80_0000).difference(e.sustain).product(left_over(f, i - 12)),
            ),
        )
    } else if i == 25 {
        envelope_point(e, held, e.sustain)
    } else {
        envelope_point(
            e,
            held.sum(e.release.product(through(i - 25))),
            e.sustain.product(left_over(f, i - 25)),
        )
    }
}

/// Where the curve of an envelope lets go.
pub fn envelope_let_go(e: &AdsrSettings) -> (x: Single)
    ensures
        x == let_go_place(*e),
{
    let held: Single = e.attack.plus(e.decay).plus(of(0x3E80_0000));
    held.over(held.plus(e.release).max(of(0x3A83_126F)))
}

/// The shape an envelope will actually produce, with stages as wide as their times.
pub fn envelope_points<F: Fn(Curve, Single) -> Single + Copy>(e: &AdsrSettings, f: F) -> (v: Vec<
    (Single, Single),
>)
    requires
        curve::gives_curves(f),
    ensures
        v@ == Seq::new(38, |i: int| envelope_at(f, *e, i)),
{
    let one: Single = of(0x3F80_0000);
    let held: Single = e.attack.plus(e.decay).plus(of(0x3E80_0000));
    let total: Single = held.plus(e.release).max(of(0x3A83_126F));
    let mut v: Vec<(Single, Single)> = Vec::with_capacity(38);
    let mut i: u64 = 0;
    while i < 38
        invariant
            i <= 38,
            curve::gives_curves(f),
            one == of(0x3F80_0000),
            held == e.attack.sum(e.decay).sum(of(0x3E80_0000)),
            total == envelope_length(*e),
            v@ == Seq::new(i as nat, |k: int| envelope_at(f, *e, k)),
        decreases 38 - i,
    {
        let (time, level): (Single, Single) = if i == 0 {
            (of(0), of(0))
        } else if i <= 12 {
            let t: Single = Single::from_whole(i).over(of(0x4140_0000));
            (e.attack.times(t), read(f, Curve::Power(t), of(0x3F40_0000)))
        } else if i <= 24 {
            let t: Single = Single::from_whole(i - 12).over(of(0x4140_0000));
            let rest: Single = read(f, Curve::Exponential, of(0xC080_0000).times(t));
            (
                e.attack.plus(e.decay.times(t)),
                e.sustain.plus(one.minus(e.sustain).times(rest)),
            )
        } else if i == 25 {
            (held, e.sustain)
        } else {
            let t: Single = Single::from_whole(i - 25).over(of(0x4140_0000));
            let rest: Single = read(f, Curve::Exponential, of(0xC080_0000).times(t));
            (held.plus(e.release.times(t)), e.sustain.times(rest))
        };
        v.push((time.over(total), level.clamp(of(0), one)));
        i = i + 1;
        assert(v@ =~= Seq::new(i as nat, |k: int| envelope_at(f, *e, k)));
    }
    v
}

// --- Levels ---
/// How far along the meter a level reaches: in decibels, from 48 below full scale.
pub open spec fn level_place<F: Fn(Curve, Single) -> Single>(f: F, level: Single) -> Single {
    of(0x41A0_0000).product(
        curve::at(f, Curve::DecimalLogarithm, level.larger(of(0x38D1_B717))),
    ).sum(of(0x4240_0000)).quotient(of(0x4240_0000)).clamped(of(0), of(0x3F80_0000))
}

pub fn place_level<F: Fn(Curve, Single) -> Single + Copy>(level: Single, f: F) -> (t: Single)
    requires
        curve::gives_curves(f),
    ensures
        t == level_place(f, level),
{
    let db: Single = of(0x41A0_0000).times(
        read(f, Curve::DecimalLogarithm, level.max(of(0x38D1_B717))),
    );
    db.plus(of(0x4240_0000)).over(of(0x4240_0000)).clamp(of(0), of(0x3F80_0000))
}

} // verus!
