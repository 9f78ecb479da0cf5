//! A state-variable filter: modes, slope, and the recurrence itself.
//!
//! The cutoff enters through the tangent of its angle.

use crate::bounds;
use crate::curve;
use crate::curve::{read, Curve};
use crate::line;
use crate::line::flush;
use crate::params::of;
use crate::single::Single;
use vstd::prelude::*;

verus! {

/// Which output tap of the state-variable filter to listen to.
#[derive(Debug, Clone, Copy, PartialEq, Eq, Structural)]
pub enum SvfMode {
    Lowpass,
    Highpass,
    /// Passes a band around the cutoff, rejects either side.
    Bandpass,
    /// Rejects a band around the cutoff, passes either side.
    Notch,
    /// Flat with a resonant bump at the cutoff.
    Peak,
    Bypass,
}

impl Default for SvfMode {
    fn default() -> (x: SvfMode)
        ensures
            x == SvfMode::Lowpass,
    {
        SvfMode::Lowpass
    }
}

impl SvfMode {
    /// Every value, in the order of its number.
    pub const ALL: [SvfMode; 6] = [
        SvfMode::Lowpass,
        SvfMode::Highpass,
        SvfMode::Bandpass,
        SvfMode::Notch,
        SvfMode::Peak,
        SvfMode::Bypass,
    ];

    /// The number that a settings word holds for this value.
    pub open spec fn number(self) -> u32 {
        match self {
            SvfMode::Lowpass => 0,
            SvfMode::Highpass => 1,
            SvfMode::Bandpass => 2,
            SvfMode::Notch => 3,
            SvfMode::Peak => 4,
            SvfMode::Bypass => 5,
        }
    }

    /// The value with a given number; unknown numbers give `Lowpass` rather
    /// than a panic, because this runs on the audio thread.
    pub fn from_u32(v: u32) -> (x: SvfMode)
        ensures
            v < 6 ==> x.number() == v,
            v >= 6 ==> x == SvfMode::Lowpass,
    {
        match v {
            0 => SvfMode::Lowpass,
            1 => SvfMode::Highpass,
            2 => SvfMode::Bandpass,
            3 => SvfMode::Notch,
            4 => SvfMode::Peak,
            5 => SvfMode::Bypass,
            _ => SvfMode::Lowpass,
        }
    }

    /// The number of this value.
    pub fn to_u32(self) -> (v: u32)
        ensures
            v == self.number(),
            v < 6,
    {
        match self {
            SvfMode::Lowpass => 0,
            SvfMode::Highpass => 1,
            SvfMode::Bandpass => 2,
            SvfMode::Notch => 3,
            SvfMode::Peak => 4,
            SvfMode::Bypass => 5,
        }
    }

    /// What the value is called on the panel.
    pub open spec fn title(self) -> Seq<char> {
        match self {
            SvfMode::Lowpass => "Lowpass"@,
            SvfMode::Highpass => "Highpass"@,
            SvfMode::Bandpass => "Bandpass"@,
            SvfMode::Notch => "Notch"@,
            SvfMode::Peak => "Peak"@,
            SvfMode::Bypass => "Bypass"@,
        }
    }

    pub fn name(self) -> (s: &'static str)
        ensures
            s@ == self.title(),
    {
        match self {
            SvfMode::Lowpass => "Lowpass",
            SvfMode::Highpass => "Highpass",
            SvfMode::Bandpass => "Bandpass",
            SvfMode::Notch => "Notch",
            SvfMode::Peak => "Peak",
            SvfMode::Bypass => "Bypass",
        }
    }
}

/// A number names one value: each survives the trip through a settings word.
pub proof fn law_svf_mode_number(a: SvfMode, b: SvfMode)
    ensures
        a.number() < 6,
        a.number() == b.number() ==> a == b,
{
}

/// Filter slope.
#[derive(Debug, Clone, Copy, PartialEq, Eq, Structural)]
pub enum Slope {
    /// One filter. Gentle, vocal, the classic "state variable" character.
    Db12,
    /// Two filters in series. Steeper and darker, closer to a ladder filter.
    Db24,
}

impl Default for Slope {
    fn default() -> (x: Slope)
        ensures
            x == Slope::Db12,
    {
        Slope::Db12
    }
}

impl Slope {
    /// The number that a settings word holds for this value.
    pub open spec fn number(self) -> u32 {
        match self {
            Slope::Db12 => 0,
            Slope::Db24 => 1,
        }
    }

    /// The value with a given number; unknown numbers give `Db12` rather
    /// than a panic, because this runs on the audio thread.
    pub fn from_u32(v: u32) -> (x: Slope)
        ensures
            v < 2 ==> x.number() == v,
            v >= 2 ==> x == Slope::Db12,
    {
        match v {
            0 => Slope::Db12,
            1 => Slope::Db24,
            _ => Slope::Db12,
        }
    }

    /// The number of this value.
    pub fn to_u32(self) -> (v: u32)
        ensures
            v == self.number(),
            v < 2,
    {
        match self {
            Slope::Db12 => 0,
            Slope::Db24 => 1,
        }
    }
}

/// A number names one value: each survives the trip through a settings word.
pub proof fn law_slope_number(a: Slope, b: Slope)
    ensures
        a.number() < 2,
        a.number() == b.number() ==> a == b,
{
}

/// Every simultaneous output of a state-variable filter.
#[derive(Debug, Clone, Copy, PartialEq, Eq, Structural)]
pub struct SvfOutputs {
    pub low: Single,
    pub band: Single,
    pub high: Single,
    pub notch: Single,
    pub peak: Single,
    pub input: Single,
}

impl SvfOutputs {
    pub open spec fn tap(self, mode: SvfMode) -> Single {
        match mode {
            SvfMode::Lowpass => self.low,
            SvfMode::Highpass => self.high,
            SvfMode::Bandpass => self.band,
            SvfMode::Notch => self.notch,
            SvfMode::Peak => self.peak,
            SvfMode::Bypass => self.input,
        }
    }

    pub fn select(self, mode: SvfMode) -> (x: Single)
        ensures
            x == self.tap(mode),
    {
        match mode {
            SvfMode::Lowpass => self.low,
            SvfMode::Highpass => self.high,
            SvfMode::Bandpass => self.band,
            SvfMode::Notch => self.notch,
            SvfMode::Peak => self.peak,
            SvfMode::Bypass => self.input,
        }
    }
}

/// A 12 dB per octave state-variable filter. Two in series make 24.
#[derive(Debug, Clone, Copy, PartialEq, Eq, Structural)]
pub struct Svf {
    pub sample_rate: Single,
    /// The prewarped cutoff.
    pub g: Single,
    /// Damping, the reciprocal of Q. Small means resonant.
    pub k: Single,
    pub a1: Single,
    pub a2: Single,
    pub a3: Single,
    /// The two integrator states.
    pub ic1eq: Single,
    pub ic2eq: Single,
}

/// The highest cutoff: prewarping blows up towards Nyquist, so it stops short.
pub open spec fn cutoff_ceiling(sample_rate: Single) -> Single {
    sample_rate.product(of(0x3F00_0000)).product(of(0x3F7A_E148))
}

/// The damping of a resonance: none gives two, and full resonance stops just above
/// nothing, where any DC would grow without bound.
pub open spec fn damping(resonance: Single) -> Single {
    of(0x4000_0000).difference(
        of(0x4000_0000).product(resonance.clamped(of(0), of(0x3F80_0000))),
    ).larger(of(0x3CCC_CCCD))
}

impl Svf {
    /// The filter with another cutoff and resonance. The states are untouched.
    pub open spec fn tuned(self, g: Single, resonance: Single) -> Svf {
        let k = damping(resonance);
        let a1 = of(0x3F80_0000).quotient(of(0x3F80_0000).sum(g.product(g.sum(k))));
        let a2 = g.product(a1);
        Svf { g, k, a1, a2, a3: g.product(a2), ..self }
    }

    /// The first integrator's input.
    pub open spec fn v3(self, input: Single) -> Single {
        input.difference(self.ic2eq)
    }

    pub open spec fn band(self, input: Single) -> Single {
        self.a1.product(self.ic1eq).sum(self.a2.product(self.v3(input)))
    }

    pub open spec fn low(self, input: Single) -> Single {
        self.ic2eq.sum(self.a2.product(self.ic1eq)).sum(self.a3.product(self.v3(input)))
    }

    pub open spec fn high(self, input: Single) -> Single {
        input.difference(self.k.product(self.band(input))).difference(self.low(input))
    }

    /// Every tap, for an input sample.
    pub open spec fn taps(self, input: Single) -> SvfOutputs {
        SvfOutputs {
            low: self.low(input),
            band: self.band(input),
            high: self.high(input),
            notch: self.high(input).sum(self.low(input)),
            peak: self.high(input).difference(self.low(input)),
            input,
        }
    }

    /// The filter after an input sample. A decaying resonant filter produces
    /// denormals constantly; the states are flushed.
    pub open spec fn after(self, input: Single) -> Svf {
        Svf {
            ic1eq: line::flushed(
                of(0x4000_0000).product(self.band(input)).difference(self.ic1eq),
            ),
            ic2eq: line::flushed(of(0x4000_0000).product(self.low(input)).difference(self.ic2eq)),
            ..self
        }
    }

    /// The sample that comes out of a filter in a mode.
    pub open spec fn passed(self, input: Single, mode: SvfMode) -> Single {
        if mode == SvfMode::Bypass {
            input
        } else {
            self.taps(input).tap(mode)
        }
    }

    /// The filter after a sample in a mode. A bypassed filter hears nothing.
    pub open spec fn after_mode(self, input: Single, mode: SvfMode) -> Svf {
        if mode == SvfMode::Bypass {
            self
        } else {
            self.after(input)
        }
    }

    /// A filter at rest without resonance, `g` being the tangent for its cutoff.
    pub fn new(sample_rate: Single, g: Single) -> (f: Svf)
        ensures
            f.sample_rate == sample_rate,
            f.ic1eq == of(0),
            f.ic2eq == of(0),
            f == f.tuned(g, of(0)),
    {
        let mut f: Svf = Svf {
            sample_rate,
            g: of(0),
            k: of(0x4000_0000),
            a1: of(0),
            a2: of(0),
            a3: of(0),
            ic1eq: of(0),
            ic2eq: of(0),
        };
        f.set_params(g, of(0));
        f
    }

    pub fn set_sample_rate(&mut self, sample_rate: Single)
        ensures
            *final(self) == (Svf { sample_rate, ..*old(self) }),
    {
        self.sample_rate = sample_rate;
    }

    /// Clears the integrators. When a voice is reused, or the tail of the previous
    /// note bleeds into the attack of the next.
    pub fn reset(&mut self)
        ensures
            *final(self) == (Svf { ic1eq: of(0), ic2eq: of(0), ..*old(self) }),
    {
        self.ic1eq = of(0);
        self.ic2eq = of(0);
    }

    /// The angle whose tangent prewarps a cutoff in Hz.
    pub fn warp_angle(&self, cutoff_hz: Single) -> (a: Single)
        requires
            of(0x4120_0000).at_most(cutoff_ceiling(self.sample_rate)),
        ensures
            a == of(0x4049_0FDB).product(
                cutoff_hz.clamped(of(0x4120_0000), cutoff_ceiling(self.sample_rate)),
            ).quotient(self.sample_rate),
    {
        let nyq: Single = self.sample_rate.times(of(0x3F00_0000));
        let fc: Single = cutoff_hz.clamp(of(0x4120_0000), nyq.times(of(0x3F7A_E148)));
        of(0x4049_0FDB).times(fc).over(self.sample_rate)
    }

    /// Sets the cutoff by its tangent, and the resonance.
    pub fn set_params(&mut self, g: Single, resonance: Single)
        ensures
            *final(self) == old(self).tuned(g, resonance),
    {
        let one: Single = of(0x3F80_0000);
        let two: Single = of(0x4000_0000);
        let k: Single = two.minus(two.times(resonance.clamp(of(0), one))).max(of(0x3CCC_CCCD));
        self.g = g;
        self.k = k;
        self.a1 = one.over(one.plus(g.times(g.plus(k))));
        self.a2 = g.times(self.a1);
        self.a3 = g.times(self.a2);
    }

    /// Processes one sample and returns every tap at once.
    pub fn process(&mut self, input: Single) -> (out: SvfOutputs)
        ensures
            out == old(self).taps(input),
            *final(self) == old(self).after(input),
    {
        let two: Single = of(0x4000_0000);
        let v3: Single = input.minus(self.ic2eq);
        let v1: Single = self.a1.times(self.ic1eq).plus(self.a2.times(v3));
        let v2: Single = self.ic2eq.plus(self.a2.times(self.ic1eq)).plus(self.a3.times(v3));
        self.ic1eq = flush(two.times(v1).minus(self.ic1eq));
        self.ic2eq = flush(two.times(v2).minus(self.ic2eq));
        let high: Single = input.minus(self.k.times(v1)).minus(v2);
        SvfOutputs { low: v2, band: v1, high, notch: high.plus(v2), peak: high.minus(v2), input }
    }

    /// Processes one sample and returns only the selected tap.
    pub fn process_mode(&mut self, input: Single, mode: SvfMode) -> (x: Single)
        ensures
            x == old(self).passed(input, mode),
            *final(self) == old(self).after_mode(input, mode),
    {
        if mode == SvfMode::Bypass {
            return input;
        }
        self.process(input).select(mode)
    }
}

/// The filter as a voice uses it: a mode, a slope and two filters in series.
#[derive(Debug, Clone, Copy, PartialEq, Eq, Structural)]
pub struct Filter {
    pub stage1: Svf,
    pub stage2: Svf,
    pub mode: SvfMode,
    pub slope: Slope,
}

impl Filter {
    /// The sample that comes out.
    pub open spec fn passed(self, input: Single) -> Single {
        let once = self.stage1.passed(input, self.mode);
        match self.slope {
            Slope::Db12 => once,
            Slope::Db24 => self.stage2.passed(once, self.mode),
        }
    }

    /// The filter after a sample. The second stage hears only the steep slope.
    pub open spec fn after(self, input: Single) -> Filter {
        Filter {
            stage1: self.stage1.after_mode(input, self.mode),
            stage2: match self.slope {
                Slope::Db12 => self.stage2,
                Slope::Db24 => self.stage2.after_mode(
                    self.stage1.passed(input, self.mode),
                    self.mode,
                ),
            },
            ..self
        }
    }

    /// A filter that has heard nothing yet.
    pub open spec fn fresh(self, sample_rate: Single, g: Single, mode: SvfMode, slope: Slope) -> bool {
        &&& self.mode == mode
        &&& self.slope == slope
        &&& self.stage1 == self.stage2
        &&& self.stage1.sample_rate == sample_rate
        &&& self.stage1.ic1eq == of(0)
        &&& self.stage1.ic2eq == of(0)
        &&& self.stage1 == self.stage1.tuned(g, of(0))
    }

    pub fn new(sample_rate: Single, g: Single) -> (f: Filter)
        ensures
            f.fresh(sample_rate, g, SvfMode::Lowpass, Slope::Db12),
    {
        let stage: Svf = Svf::new(sample_rate, g);
        Filter { stage1: stage, stage2: stage, mode: SvfMode::Lowpass, slope: Slope::Db12 }
    }

    pub fn set_sample_rate(&mut self, sample_rate: Single)
        ensures
            *final(self) == (Filter {
                stage1: Svf { sample_rate, ..old(self).stage1 },
                stage2: Svf { sample_rate, ..old(self).stage2 },
                ..*old(self)
            }),
    {
        self.stage1.set_sample_rate(sample_rate);
        self.stage2.set_sample_rate(sample_rate);
    }

    pub fn reset(&mut self)
        ensures
            *final(self) == (Filter {
                stage1: Svf { ic1eq: of(0), ic2eq: of(0), ..old(self).stage1 },
                stage2: Svf { ic1eq: of(0), ic2eq: of(0), ..old(self).stage2 },
                ..*old(self)
            }),
    {
        self.stage1.reset();
        self.stage2.reset();
    }

    /// Sets cutoff and resonance. The second stage gets half the resonance: two
    /// resonant stages multiply their peaks, which turns an emphasis into a howl.
    pub fn set_params(&mut self, g: Single, resonance: Single)
        ensures
            *final(self) == (Filter {
                stage1: old(self).stage1.tuned(g, resonance),
                stage2: old(self).stage2.tuned(g, resonance.product(of(0x3F00_0000))),
                ..*old(self)
            }),
    {
        self.stage1.set_params(g, resonance);
        self.stage2.set_params(g, resonance.times(of(0x3F00_0000)));
    }

    pub fn process(&mut self, input: Single) -> (x: Single)
        ensures
            x == old(self).passed(input),
            *final(self) == old(self).after(input),
    {
        let out: Single = self.stage1.process_mode(input, self.mode);
        match self.slope {
            Slope::Db12 => out,
            Slope::Db24 => self.stage2.process_mode(out, self.mode),
        }
    }
}

impl Filter {
    /// Whether the sample rate leaves room for a cutoff at all.
    pub open spec fn has_room(self) -> bool {
        of(0x4120_0000).at_most(cutoff_ceiling(self.stage1.sample_rate))
    }

    /// The filter at a cutoff in Hz.
    pub open spec fn at_cutoff<F: Fn(Curve, Single) -> Single>(
        self,
        f: F,
        cutoff_hz: Single,
        resonance: Single,
    ) -> Filter {
        let g = curve::at(
            f,
            Curve::Tangent,
            of(0x4049_0FDB).product(
                cutoff_hz.clamped(of(0x4120_0000), cutoff_ceiling(self.stage1.sample_rate)),
            ).quotient(self.stage1.sample_rate),
        );
        Filter {
            stage1: self.stage1.tuned(g, resonance),
            stage2: self.stage2.tuned(g, resonance.product(of(0x3F00_0000))),
            ..self
        }
    }

    /// Sets the cutoff in Hz, and the resonance.
    pub fn tune_to<F: Fn(Curve, Single) -> Single + Copy>(
        &mut self,
        cutoff_hz: Single,
        resonance: Single,
        f: F,
    )
        requires
            old(self).has_room(),
            curve::gives_curves(f),
        ensures
            *final(self) == old(self).at_cutoff(f, cutoff_hz, resonance),
    {
        let g: Single = read(f, Curve::Tangent, self.stage1.warp_angle(cutoff_hz));
        self.set_params(g, resonance);
    }
}

/// A bypassed filter hands every sample on as it is and keeps its state, whatever
/// its slope.
pub proof fn law_a_bypassed_filter_is_not_there(f: Filter, input: Single)
    requires
        f.mode == SvfMode::Bypass,
    ensures
        f.passed(input) == input,
        f.after(input) == f,
{
}

/// No denormal stays in a filter: each state is zero, not a number, or large enough
/// to matter.
pub proof fn law_no_denormal_stays_in_a_filter(f: Svf, input: Single)
    ensures
        ({
            let s = f.after(input).ic1eq;
            s == of(0) || s.nan() || of(0x1E3C_E508).at_most(s.size())
        }),
        ({
            let s = f.after(input).ic2eq;
            s == of(0) || s.nan() || of(0x1E3C_E508).at_most(s.size())
        }),
{
    line::law_no_denormal_is_stored(
        of(0x4000_0000).product(f.band(input)).difference(f.ic1eq),
    );
    line::law_no_denormal_is_stored(of(0x4000_0000).product(f.low(input)).difference(f.ic2eq));
}

/// A filter at rest stays at rest in silence.
pub proof fn law_a_filter_at_rest_stays_silent(f: Svf, mode: SvfMode)
    requires
        f.ic1eq.magnitude() == 0,
        f.ic2eq.magnitude() == 0,
        f.k.finite(),
        f.a1.finite(),
        f.a2.finite(),
        f.a3.finite(),
    ensures
        f.passed(of(0), mode).magnitude() == 0,
        f.after_mode(of(0), mode).ic1eq.magnitude() == 0,
        f.after_mode(of(0), mode).ic2eq.magnitude() == 0,
{
    let zero = of(0);
    let v3 = f.v3(zero);
    lemma_silence(zero, f.ic2eq.opposite());
    bounds::lemma_product_with_zero(f.a1, f.ic1eq);
    bounds::lemma_product_with_zero(f.a2, v3);
    bounds::lemma_product_with_zero(f.a2, f.ic1eq);
    bounds::lemma_product_with_zero(f.a3, v3);
    lemma_silence(f.a1.product(f.ic1eq), f.a2.product(v3));
    lemma_silence(f.ic2eq, f.a2.product(f.ic1eq));
    lemma_silence(f.ic2eq.sum(f.a2.product(f.ic1eq)), f.a3.product(v3));
    let (band, low) = (f.band(zero), f.low(zero));
    bounds::lemma_product_with_zero(of(0x4000_0000), band);
    bounds::lemma_product_with_zero(of(0x4000_0000), low);
    bounds::lemma_product_with_zero(f.k, band);
    lemma_silence(of(0x4000_0000).product(band), f.ic1eq.opposite());
    lemma_silence(of(0x4000_0000).product(low), f.ic2eq.opposite());
    lemma_silence(zero, f.k.product(band).opposite());
    let part = zero.difference(f.k.product(band));
    lemma_silence(part, low.opposite());
    let high = f.high(zero);
    lemma_silence(high, low);
    lemma_silence(high, low.opposite());
}

/// Silence added to silence.
proof fn lemma_silence(a: Single, b: Single)
    requires
        a.magnitude() == 0,
        b.magnitude() == 0,
    ensures
        a.sum(b).magnitude() == 0,
{
    bounds::lemma_sum_with_zero(a, b);
}

} // verus!
