//! Band-limited oscillators.
//!
//! A step between two samples aliases. Each step of a saw or a pulse is rounded off
//! by a small polynomial, as wide as one sample of phase on either side of it.

use crate::bounds;
use crate::exact;
use crate::params::of;
use crate::rng;
use crate::rng::Rng;
use crate::single;
use crate::single::{Single, HIDDEN};
use vstd::arithmetic::power2::*;
use vstd::prelude::*;

verus! {

/// Oscillator waveform.
#[derive(Debug, Clone, Copy, PartialEq, Eq, Structural)]
pub enum Waveform {
    Sine,
    Triangle,
    Saw,
    /// Square wave with variable pulse width.
    Pulse,
    /// White noise. Ignores frequency.
    Noise,
}

impl Default for Waveform {
    fn default() -> (x: Waveform)
        ensures
            x == Waveform::Saw,
    {
        Waveform::Saw
    }
}

impl Waveform {
    /// Every value, in the order of its number.
    pub const ALL: [Waveform; 5] = [
        Waveform::Sine,
        Waveform::Triangle,
        Waveform::Saw,
        Waveform::Pulse,
        Waveform::Noise,
    ];

    /// The number that a settings word holds for this value.
    pub open spec fn number(self) -> u32 {
        match self {
            Waveform::Sine => 0,
            Waveform::Triangle => 1,
            Waveform::Saw => 2,
            Waveform::Pulse => 3,
            Waveform::Noise => 4,
        }
    }

    /// The value with a given number; unknown numbers give `Saw` rather
    /// than a panic, because this runs on the audio thread.
    pub fn from_u32(v: u32) -> (x: Waveform)
        ensures
            v < 5 ==> x.number() == v,
            v >= 5 ==> x == Waveform::Saw,
    {
        match v {
            0 => Waveform::Sine,
            1 => Waveform::Triangle,
            2 => Waveform::Saw,
            3 => Waveform::Pulse,
            4 => Waveform::Noise,
            _ => Waveform::Saw,
        }
    }

    /// The number of this value.
    pub fn to_u32(self) -> (v: u32)
        ensures
            v == self.number(),
            v < 5,
    {
        match self {
            Waveform::Sine => 0,
            Waveform::Triangle => 1,
            Waveform::Saw => 2,
            Waveform::Pulse => 3,
            Waveform::Noise => 4,
        }
    }

    /// What the value is called on the panel.
    pub open spec fn title(self) -> Seq<char> {
        match self {
            Waveform::Sine => "Sine"@,
            Waveform::Triangle => "Triangle"@,
            Waveform::Saw => "Saw"@,
            Waveform::Pulse => "Pulse"@,
            Waveform::Noise => "Noise"@,
        }
    }

    pub fn name(self) -> (s: &'static str)
        ensures
            s@ == self.title(),
    {
        match self {
            Waveform::Sine => "Sine",
            Waveform::Triangle => "Triangle",
            Waveform::Saw => "Saw",
            Waveform::Pulse => "Pulse",
            Waveform::Noise => "Noise",
        }
    }
}

/// A number names one value: each survives the trip through a settings word.
pub proof fn law_waveform_number(a: Waveform, b: Waveform)
    ensures
        a.number() < 5,
        a.number() == b.number() ==> a == b,
{
}

/// How far a phase is from an edge, the short way round the cycle.
pub open spec fn from_edge(t: Single, edge: Single) -> Single {
    let d = t.difference(edge);
    if d.below(of(0xBF00_0000)) {
        d.sum(of(0x3F80_0000))
    } else if of(0x3F00_0000).at_most(d) {
        d.difference(of(0x3F80_0000))
    } else {
        d
    }
}

/// The correction right after a step, `x` of its width away.
pub open spec fn bend_after(x: Single) -> Single {
    x.sum(x).difference(x.product(x)).difference(of(0x3F80_0000))
}

/// The correction right before a step, `x` of its width away, negative.
pub open spec fn bend_before(x: Single) -> Single {
    x.product(x).sum(x).sum(x).sum(of(0x3F80_0000))
}

/// Polynomial band-limited step.
///
/// `t` is the phase, `edge` the phase at which the waveform jumps, and `dt` the
/// phase of one sample, which is also the correction's width. The result is nothing
/// further than that from the edge. It works from a signed distance: a phase
/// wrapped beforehand can round onto the wrong side of the step.
pub open spec fn blep(t: Single, edge: Single, dt: Single) -> Single {
    let d = from_edge(t, edge);
    if dt.at_most(of(0)) {
        of(0)
    } else if of(0).at_most(d) {
        if d.below(dt) {
            bend_after(d.quotient(dt))
        } else {
            of(0)
        }
    } else if dt.opposite().below(d) {
        bend_before(d.quotient(dt))
    } else {
        of(0)
    }
}

fn blep_at(t: Single, edge: Single, dt: Single) -> (x: Single)
    ensures
        x == blep(t, edge, dt),
{
    let one: Single = of(0x3F80_0000);
    if dt.le(of(0)) {
        return of(0);
    }
    let mut d: Single = t.minus(edge);
    if d.lt(of(0xBF00_0000)) {
        d = d.plus(one);
    } else if of(0x3F00_0000).le(d) {
        d = d.minus(one);
    }
    if of(0).le(d) {
        if d.lt(dt) {
            let x: Single = d.over(dt);
            x.plus(x).minus(x.times(x)).minus(one)
        } else {
            of(0)
        }
    } else if dt.negated().lt(d) {
        let x: Single = d.over(dt);
        x.times(x).plus(x).plus(x).plus(one)
    } else {
        of(0)
    }
}

/// A ramp, less a band-limited step at the wrap point.
pub open spec fn saw(t: Single, dt: Single) -> Single {
    of(0x4000_0000).product(t).difference(of(0x3F80_0000)).difference(blep(t, of(0), dt))
}

/// A square wave high up to `edge`, with both its steps band-limited.
pub open spec fn square(t: Single, edge: Single, width: Single) -> Single {
    (if t.below(edge) {
        of(0x3F80_0000)
    } else {
        of(0xBF80_0000)
    }).sum(blep(t, of(0), width)).difference(blep(t, edge, width))
}

/// How wide a pulse's corrections are: so narrow that the two cannot overlap, which
/// would let them sum past full scale.
pub open spec fn pulse_correction(dt: Single, pw: Single) -> Single {
    dt.smaller(pw.product(of(0x3F00_0000))).smaller(
        of(0x3F80_0000).difference(pw).product(of(0x3F00_0000)),
    )
}

/// A single band-limited oscillator.
#[derive(Debug, Clone)]
pub struct Oscillator {
    pub phase: Single,
    /// Phase per sample. Also the width of the corrections.
    pub dt: Single,
    pub sample_rate: Single,
    pub pulse_width: Single,
    /// Leaky-integrator state for the triangle wave.
    pub tri: Single,
    pub rng: Rng,
}

impl Oscillator {
    pub open spec fn wf(self) -> bool {
        self.rng.wf()
    }

    /// An oscillator that has not been told a pitch yet.
    pub open spec fn fresh(self, sample_rate: Single, seed: u64) -> bool {
        &&& self.wf()
        &&& self.phase == of(0)
        &&& self.dt == of(0)
        &&& self.sample_rate == sample_rate
        &&& self.pulse_width == of(0x3F00_0000)
        &&& self.tri == of(0)
        &&& self.rng.state() == (if seed == 0 {
            rng::SPARE_SEED
        } else {
            seed
        })
    }

    /// The triangle's integrator one sample on. A triangle is the integral of a
    /// square; integrating the band-limited one inherits its band limiting, and
    /// the leak stops DC from building up.
    pub open spec fn next_tri(self) -> Single {
        self.dt.product(
            square(self.phase, of(0x3F00_0000), self.dt.smaller(of(0x3E80_0000))),
        ).sum(of(0x3F80_0000).difference(self.dt).product(self.tri))
    }

    /// The phase one sample on.
    pub open spec fn next_phase(self) -> Single {
        let p = self.phase.sum(self.dt);
        if of(0x3F80_0000).at_most(p) {
            p.difference(of(0x3F80_0000))
        } else {
            p
        }
    }

    /// The oscillator after a sample. Noise has no phase to advance.
    pub open spec fn after(self, wave: Waveform) -> Oscillator {
        if wave == Waveform::Noise {
            Oscillator { rng: self.rng.stepped(), ..self }
        } else {
            Oscillator {
                phase: self.next_phase(),
                tri: if wave == Waveform::Triangle {
                    self.next_tri()
                } else {
                    self.tri
                },
                ..self
            }
        }
    }

    /// The oscillator at a frequency.
    pub open spec fn tuned(self, hz: Single) -> Oscillator {
        Oscillator {
            dt: hz.clamped(of(0), ceiling(self.sample_rate)).quotient(self.sample_rate),
            ..self
        }
    }

    /// The oscillator at the start of its cycle, and at a given place of it.
    pub open spec fn rewound(self) -> Oscillator {
        Oscillator { phase: of(0), tri: of(0), ..self }
    }

    pub open spec fn placed(self, phase: Single) -> Oscillator {
        Oscillator {
            phase: if phase.fraction().below(of(0)) {
                phase.fraction().sum(of(0x3F80_0000))
            } else {
                phase.fraction()
            },
            ..self
        }
    }

    /// The oscillator with a duty cycle.
    pub open spec fn pulsed(self, pw: Single) -> Oscillator {
        Oscillator { pulse_width: pw.clamped(of(0x3D4C_CCCD), of(0x3F73_3333)), ..self }
    }

    /// The sample a waveform gives now, with `sine` the sine at the current phase.
    pub open spec fn sample(self, wave: Waveform, sine: Single) -> Single {
        match wave {
            Waveform::Noise => Single {
                bits: rng::bipolar_bits((self.rng.next_word() >> 40) as int) as u32,
            },
            Waveform::Sine => sine,
            Waveform::Saw => saw(self.phase, self.dt),
            Waveform::Pulse => square(
                self.phase,
                self.pulse_width,
                pulse_correction(self.dt, self.pulse_width),
            ),
            // The integrator swings a quarter either way for a unit square.
            Waveform::Triangle => self.next_tri().product(of(0x4080_0000)),
        }
    }

    pub fn new(sample_rate: Single, seed: u64) -> (o: Oscillator)
        ensures
            o.fresh(sample_rate, seed),
    {
        Oscillator {
            phase: of(0),
            dt: of(0),
            sample_rate,
            pulse_width: of(0x3F00_0000),
            tri: of(0),
            rng: Rng::new(seed),
        }
    }

    pub fn set_sample_rate(&mut self, sample_rate: Single)
        ensures
            *final(self) == (Oscillator { sample_rate, ..*old(self) }),
    {
        self.sample_rate = sample_rate;
    }

    /// Sets the frequency in Hz, held below Nyquist: the corrections need at least
    /// two samples per cycle, or their windows overlap.
    pub fn set_freq(&mut self, hz: Single)
        requires
            of(0).at_most(ceiling(old(self).sample_rate)),
        ensures
            *final(self) == old(self).tuned(hz),
    {
        let nyq: Single = self.sample_rate.times(of(0x3F00_0000));
        let hz: Single = hz.clamp(of(0), nyq.times(of(0x3F7A_E148)));
        self.dt = hz.over(self.sample_rate);
    }

    /// The duty cycle of the pulse, held away from both ends: there the two
    /// corrections collide and the wave collapses to silence with a click.
    pub fn set_pulse_width(&mut self, pw: Single)
        ensures
            *final(self) == old(self).pulsed(pw),
    {
        self.pulse_width = pw.clamp(of(0x3D4C_CCCD), of(0x3F73_3333));
    }

    /// Back to the start of the cycle.
    pub fn reset_phase(&mut self)
        ensures
            *final(self) == old(self).rewound(),
    {
        self.phase = of(0);
        self.tri = of(0);
    }

    /// Offsets the starting phase, in cycles. Detuned oscillators that start in
    /// phase produce an audible whoosh as they drift apart.
    pub fn set_phase(&mut self, phase: Single)
        ensures
            *final(self) == old(self).placed(phase),
    {
        let r: Single = phase.fract();
        self.phase = if r.lt(of(0)) {
            r.plus(of(0x3F80_0000))
        } else {
            r
        };
    }

    /// The angle whose sine a sine wave needs.
    pub fn angle(&self) -> (a: Single)
        ensures
            a == self.phase.product(of(0x40C9_0FDB)),
    {
        self.phase.times(of(0x40C9_0FDB))
    }

    /// Produces one sample and advances the phase. Noise has no phase to advance.
    pub fn next(&mut self, wave: Waveform, sine: Single) -> (x: Single)
        requires
            old(self).wf(),
        ensures
            final(self).wf(),
            x == old(self).sample(wave, sine),
            *final(self) == old(self).after(wave),
    {
        let one: Single = of(0x3F80_0000);
        let half: Single = of(0x3F00_0000);
        let t: Single = self.phase;
        let dt: Single = self.dt;
        let out: Single = match wave {
            Waveform::Noise => {
                return self.rng.next_bipolar();
            },
            Waveform::Sine => sine,
            Waveform::Saw => of(0x4000_0000).times(t).minus(one).minus(blep_at(t, of(0), dt)),
            Waveform::Pulse => {
                let pw: Single = self.pulse_width;
                let width: Single = dt.min(pw.times(half)).min(one.minus(pw).times(half));
                two_steps(t, pw, width)
            },
            Waveform::Triangle => {
                let sq: Single = two_steps(t, half, dt.min(of(0x3E80_0000)));
                self.tri = dt.times(sq).plus(one.minus(dt).times(self.tri));
                self.tri.times(of(0x4080_0000))
            },
        };
        self.phase = t.plus(dt);
        if one.le(self.phase) {
            self.phase = self.phase.minus(one);
        }
        out
    }
}

/// The highest frequency an oscillator plays: a little short of Nyquist.
pub open spec fn ceiling(sample_rate: Single) -> Single {
    sample_rate.product(of(0x3F00_0000)).product(of(0x3F7A_E148))
}

fn two_steps(t: Single, edge: Single, width: Single) -> (x: Single)
    ensures
        x == square(t, edge, width),
{
    let naive: Single = if t.lt(edge) {
        of(0x3F80_0000)
    } else {
        of(0xBF80_0000)
    };
    naive.plus(blep_at(t, of(0), width)).minus(blep_at(t, edge, width))
}

/// A phase within the cycle stays there, as long as a sample is at most half a
/// cycle.
pub proof fn law_the_phase_stays_in_the_cycle(o: Oscillator)
    requires
        of(0).at_most(o.phase),
        o.phase.below(of(0x3F80_0000)),
        of(0).at_most(o.dt),
        o.dt.at_most(of(0x3F00_0000)),
    ensures
        of(0).at_most(o.next_phase()),
        o.next_phase().below(of(0x3F80_0000)),
{
    let (zero, half, one, two) = (of(0), of(0x3F00_0000), of(0x3F80_0000), of(0x4000_0000));
    bounds::lemma_unit();
    bounds::lemma_small_wholes();
    single::law_order_is_numeric(zero, o.phase);
    single::law_order_is_numeric(o.phase, one);
    single::law_order_is_numeric(zero, o.dt);
    single::law_order_is_numeric(o.dt, half);
    let p = o.phase.sum(o.dt);
    let most = of(0x3FC0_0000);
    bounds::lemma_one_and_a_half();
    bounds::lemma_sum_bounds(o.phase, o.dt, zero);
    bounds::lemma_sum_bounds(o.phase, o.dt, most);
    if one.at_most(p) {
        bounds::lemma_opposite(one);
        single::law_order_is_numeric(one, p);
        single::law_order_is_numeric(p, most);
        bounds::lemma_sum_bounds(p, one.opposite(), zero);
        bounds::lemma_sum_bounds(p, one.opposite(), half);
    }
}

/// The corrections are bounded: none moves a sample by more than one.
pub proof fn law_the_correction_is_bounded(t: Single, edge: Single, dt: Single)
    requires
        bounds::in_unit(t),
        bounds::in_unit(edge),
        dt.finite(),
    ensures
        bounds::in_bipolar(blep(t, edge, dt)),
{
    let (zero, one, minus, two) = (of(0), of(0x3F80_0000), of(0xBF80_0000), of(0x4000_0000));
    bounds::lemma_unit();
    bounds::lemma_small_wholes();
    let d = from_edge(t, edge);
    if !dt.at_most(zero) {
        bounds::lemma_in_unit(t);
        bounds::lemma_in_unit(edge);
        bounds::lemma_opposite(edge);
        bounds::lemma_opposite(one);
        bounds::lemma_opposite(dt);
        let e = t.difference(edge);
        bounds::lemma_sum_bounds(t, edge.opposite(), one);
        bounds::lemma_sum_bounds(t, edge.opposite(), minus);
        bounds::lemma_in_bipolar(e);
        let half = of(0x3F00_0000);
        let less = of(0xBF00_0000);
        bounds::lemma_opposite(half);
        assert(half.opposite() == less);
        single::law_order_is_numeric(e, less);
        single::law_order_is_numeric(half, e);
        bounds::lemma_sum_bounds(e, one, one);
        bounds::lemma_sum_bounds(e, one, zero);
        bounds::lemma_sum_bounds(e, one.opposite(), zero);
        bounds::lemma_sum_bounds(e, one.opposite(), minus);
        assert(d.finite());
        single::law_order_is_numeric(zero, dt);
        single::law_order_is_numeric(zero, d);
        single::law_order_is_numeric(d, dt);
        single::law_order_is_numeric(dt.opposite(), d);
        let x = d.quotient(dt);
        let (n, k, w) = (d.units(), dt.units(), pow2(149) as int);
        if zero.at_most(d) && d.below(dt) {
            assert(0 <= n * w <= w * k && 0 * k == 0) by (nonlinear_arith)
                requires
                    0 <= n < k,
                    w >= 0,
            ;
            bounds::lemma_quotient_bounds(d, dt, one);
            bounds::lemma_quotient_bounds(d, dt, zero);
            lemma_bend_after(x);
        } else if !zero.at_most(d) && dt.opposite().below(d) {
            assert(-w * k <= n * w <= 0 && 0 * k == 0 && -w * k == -(w * k)) by (nonlinear_arith)
                requires
                    -k < n < 0,
                    w >= 0,
            ;
            bounds::lemma_quotient_bounds(d, dt, minus);
            bounds::lemma_quotient_bounds(d, dt, zero);
            lemma_bend_before(x);
        }
    }
}

proof fn lemma_bend_after(x: Single)
    requires
        bounds::in_unit(x),
    ensures
        bounds::in_bipolar(bend_after(x)),
{
    let (zero, one, minus, two) = (of(0), of(0x3F80_0000), of(0xBF80_0000), of(0x4000_0000));
    bounds::lemma_unit();
    bounds::lemma_small_wholes();
    bounds::lemma_in_unit(x);
    bounds::lemma_unit_product(x, x);
    let s = x.product(x);
    bounds::lemma_in_unit(s);
    bounds::lemma_opposite(s);
    bounds::lemma_opposite(one);
    let twice = x.sum(x);
    assert(x.exponent() <= 127);
    bounds::lemma_doubled(x);
    let b = twice.difference(s);
    bounds::lemma_sum_bounds(twice, s.opposite(), zero);
    bounds::lemma_sum_bounds(twice, s.opposite(), two);
    single::law_order_is_numeric(zero, b);
    single::law_order_is_numeric(b, two);
    bounds::lemma_sum_bounds(b, one.opposite(), one);
    bounds::lemma_sum_bounds(b, one.opposite(), minus);
}

proof fn lemma_bend_before(x: Single)
    requires
        of(0xBF80_0000).at_most(x),
        x.at_most(of(0)),
    ensures
        bounds::in_bipolar(bend_before(x)),
{
    let (zero, one, minus, two) = (of(0), of(0x3F80_0000), of(0xBF80_0000), of(0x4000_0000));
    bounds::lemma_unit();
    bounds::lemma_small_wholes();
    bounds::lemma_in_bipolar(x);
    single::law_order_is_numeric(x, zero);
    let (u, w) = (x.units(), pow2(149) as int);
    let y = x.opposite();
    bounds::lemma_opposite(x);
    assert(0 <= u * u <= -u * w && 0 * w == 0) by (nonlinear_arith)
        requires
            -w <= u <= 0,
    ;
    let s = x.product(x);
    bounds::lemma_product_bounds(x, x, zero);
    bounds::lemma_product_bounds(x, x, y);
    single::law_order_is_numeric(zero, s);
    single::law_order_is_numeric(s, y);
    let a = s.sum(x);
    bounds::lemma_sum_bounds(s, x, zero);
    bounds::lemma_sum_bounds(s, x, x);
    single::law_order_is_numeric(x, a);
    single::law_order_is_numeric(a, zero);
    let b = a.sum(x);
    bounds::lemma_opposite(two);
    bounds::lemma_sum_bounds(a, x, zero);
    bounds::lemma_sum_bounds(a, x, two.opposite());
    single::law_order_is_numeric(b, zero);
    single::law_order_is_numeric(two.opposite(), b);
    bounds::lemma_sum_bounds(b, one, one);
    bounds::lemma_sum_bounds(b, one, minus);
}

/// A saw stays bounded, at every frequency and phase.
pub proof fn law_a_saw_stays_bounded(t: Single, dt: Single)
    requires
        bounds::in_unit(t),
        dt.finite(),
    ensures
        saw(t, dt).at_most(of(0x4000_0000)),
        of(0xC000_0000).at_most(saw(t, dt)),
{
    let (zero, one, minus, two) = (of(0), of(0x3F80_0000), of(0xBF80_0000), of(0x4000_0000));
    bounds::lemma_unit();
    bounds::lemma_small_wholes();
    bounds::lemma_in_unit(t);
    law_the_correction_is_bounded(t, zero, dt);
    let c = blep(t, zero, dt);
    bounds::lemma_in_bipolar(c);
    bounds::lemma_opposite(c);
    bounds::lemma_opposite(one);
    bounds::lemma_opposite(two);
    let (u, w) = (t.units(), pow2(149) as int);
    assert(0 <= (2 * w) * u <= (2 * w) * w && 0 * w == 0) by (nonlinear_arith)
        requires
            0 <= u <= w,
    ;
    let ramp = two.product(t);
    bounds::lemma_product_bounds(two, t, two);
    bounds::lemma_product_bounds(two, t, zero);
    single::law_order_is_numeric(ramp, two);
    single::law_order_is_numeric(zero, ramp);
    let naive = ramp.difference(one);
    bounds::lemma_sum_bounds(ramp, one.opposite(), one);
    bounds::lemma_sum_bounds(ramp, one.opposite(), minus);
    bounds::lemma_in_bipolar(naive);
    bounds::lemma_sum_bounds(naive, c.opposite(), two);
    bounds::lemma_sum_bounds(naive, c.opposite(), two.opposite());
}

/// Noise stays between minus one and one.
pub proof fn law_noise_stays_bounded(o: Oscillator, sine: Single)
    ensures
        bounds::in_bipolar(o.sample(Waveform::Noise, sine)),
{
    let w = o.rng.next_word();
    assert(w >> 40 < 0x0100_0000) by (bit_vector);
    let k = (w >> 40) as int;
    if k >= 0x0080_0000 {
        single::lemma_ratio_at_most_one((k - 0x0080_0000) as nat, 0x0080_0000);
    } else {
        single::lemma_ratio_at_most_one((0x0080_0000 - k) as nat, 0x0080_0000);
    }
}

/// The corrections of a pulse are no wider than a sample.
proof fn lemma_correction_width(dt: Single, pw: Single)
    requires
        dt.finite(),
        bounds::in_unit(pw),
    ensures
        pulse_correction(dt, pw).finite(),
        pulse_correction(dt, pw).units() <= dt.units(),
{
    let (half, one) = (of(0x3F00_0000), of(0x3F80_0000));
    bounds::lemma_unit();
    bounds::lemma_unit_product(pw, half);
    bounds::lemma_in_unit(pw);
    bounds::lemma_unit_rest(pw);
    bounds::lemma_unit_product(one.difference(pw), half);
    let (a, b) = (pw.product(half), one.difference(pw).product(half));
    bounds::lemma_in_unit(a);
    bounds::lemma_in_unit(b);
    single::law_order_is_numeric(dt, a);
    single::law_order_is_numeric(a, dt);
    let c = dt.smaller(a);
    single::law_order_is_numeric(c, b);
    single::law_order_is_numeric(b, c);
}

/// Away from the start of the cycle there is no correction for it.
proof fn lemma_clear_of_the_start(t: Single, width: Single)
    requires
        bounds::in_unit(t),
        width.finite(),
        width.units() <= t.units(),
        t.units() + width.units() <= pow2(149),
    ensures
        blep(t, of(0), width).magnitude() == 0,
{
    let (zero, half, one) = (of(0), of(0x3F00_0000), of(0x3F80_0000));
    bounds::lemma_unit();
    bounds::lemma_small_wholes();
    bounds::lemma_in_unit(t);
    bounds::lemma_opposite(zero);
    bounds::lemma_opposite(one);
    bounds::lemma_opposite(half);
    bounds::lemma_opposite(width);
    assert(half.opposite() == of(0xBF00_0000));
    exact::lemma_exact_sum(t, zero.opposite(), t);
    let d = t.difference(zero);
    single::law_order_is_numeric(d, half.opposite());
    single::law_order_is_numeric(half, d);
    single::law_order_is_numeric(width, zero);
    if width.units() > 0 {
        if half.at_most(d) {
            let e = d.difference(one);
            bounds::lemma_sum_bounds(d, one.opposite(), width.opposite());
            bounds::lemma_sum_bounds(d, one.opposite(), one.opposite());
            single::law_order_is_numeric(e, width.opposite());
            single::law_order_is_numeric(zero, e);
            single::law_order_is_numeric(width.opposite(), e);
        } else {
            single::law_order_is_numeric(zero, d);
            single::law_order_is_numeric(d, width);
        }
    }
}

/// Away from an edge, on the near side of the cycle, there is no correction for it.
proof fn lemma_clear_of_the_edge(t: Single, edge: Single, width: Single)
    requires
        bounds::in_unit(t),
        bounds::in_unit(edge),
        width.finite(),
        width.units() <= t.units() - edge.units() || width.units() <= edge.units() - t.units(),
        -pow2(149) < 2 * (t.units() - edge.units()) < pow2(149),
    ensures
        blep(t, edge, width).magnitude() == 0,
{
    let (zero, half, one) = (of(0), of(0x3F00_0000), of(0x3F80_0000));
    bounds::lemma_unit();
    bounds::lemma_small_wholes();
    bounds::lemma_in_unit(t);
    bounds::lemma_in_unit(edge);
    bounds::lemma_opposite(edge);
    bounds::lemma_opposite(one);
    bounds::lemma_opposite(half);
    bounds::lemma_opposite(width);
    assert(half.opposite() == of(0xBF00_0000));
    let d = t.difference(edge);
    bounds::lemma_sum_bounds(t, edge.opposite(), half);
    bounds::lemma_sum_bounds(t, edge.opposite(), half.opposite());
    bounds::lemma_sum_bounds(t, edge.opposite(), width);
    bounds::lemma_sum_bounds(t, edge.opposite(), width.opposite());
    bounds::lemma_sum_bounds(t, edge.opposite(), zero);
    single::law_order_is_numeric(d, half.opposite());
    single::law_order_is_numeric(half.opposite(), d);
    single::law_order_is_numeric(half, d);
    single::law_order_is_numeric(d, half);
    single::law_order_is_numeric(width, zero);
    single::law_order_is_numeric(zero, d);
    single::law_order_is_numeric(d, zero);
    single::law_order_is_numeric(d, width);
    single::law_order_is_numeric(width, d);
    single::law_order_is_numeric(width.opposite(), d);
    single::law_order_is_numeric(d, width.opposite());
    if width.units() > 0 && half.at_most(d) {
        let e = d.difference(one);
        bounds::lemma_sum_bounds(d, one.opposite(), half.opposite());
        exact::lemma_exact_sum(d, one.opposite(), half.opposite());
        single::law_order_is_numeric(zero, e);
        single::law_order_is_numeric(width.opposite(), e);
    }
}

/// Whether a phase is more than a sample away from both ends of the cycle.
pub open spec fn clear_of_the_ends(o: Oscillator) -> bool {
    &&& bounds::in_unit(o.phase)
    &&& o.dt.finite()
    &&& 0 <= o.dt.units() <= o.phase.units()
    &&& o.phase.units() + o.dt.units() <= pow2(149)
}

/// Whether it is also more than a sample away from a pulse's edge, and less than half a
/// cycle.
pub open spec fn clear_of_the_edge(o: Oscillator) -> bool {
    let d = o.phase.units() - o.pulse_width.units();
    &&& clear_of_the_ends(o)
    &&& bounds::in_unit(o.pulse_width)
    &&& o.dt.units() <= d || o.dt.units() <= -d
    &&& -pow2(149) < 2 * d < pow2(149)
}

/// Whether a sample is one that a waveform has at an oscillator's phase. A sine is the sine
/// there; a saw climbs evenly from minus one to one; a pulse is one up to its width, and
/// minus one from there on; noise is anything between the two, and the same whatever the
/// pitch. The steps of a saw and a pulse are rounded off by a sample on either side.
pub open spec fn traces(o: Oscillator, wave: Waveform, sine: Single, x: Single) -> bool {
    match wave {
        Waveform::Sine => x == sine,
        Waveform::Saw => clear_of_the_ends(o) ==> bounds::rounded(
            x,
            2 * o.phase.units() - pow2(149),
        ),
        Waveform::Pulse => clear_of_the_edge(o) ==> {
            &&& o.phase.units() < o.pulse_width.units() ==> x.units() == pow2(149)
            &&& o.phase.units() > o.pulse_width.units() ==> x.units() == -pow2(149)
        },
        Waveform::Noise => {
            &&& bounds::in_bipolar(x)
            &&& forall|other: Oscillator|
                other.rng == o.rng ==> #[trigger] other.sample(wave, sine) == x
        },
        // Four times an integral of the square wave.
        Waveform::Triangle => x == o.after(wave).tri.product(of(0x4080_0000)),
    }
}

/// Every waveform is what it is called.
pub proof fn law_every_wave_is_what_it_is_called(o: Oscillator, wave: Waveform, sine: Single)
    ensures
        traces(o, wave, sine, o.sample(wave, sine)),
{
    let (zero, half, one, two) = (of(0), of(0x3F00_0000), of(0x3F80_0000), of(0x4000_0000));
    let t = o.phase;
    bounds::lemma_unit();
    bounds::lemma_opposite(zero);
    bounds::lemma_opposite(one);
    match wave {
        Waveform::Saw => if clear_of_the_ends(o) {
            lemma_clear_of_the_start(t, o.dt);
            bounds::lemma_in_unit(t);
            exact::lemma_small_multiples(t);
            let naive = two.product(t).difference(one);
            bounds::lemma_sum_bounds(two.product(t), one.opposite(), one);
            bounds::lemma_sum_bounds(two.product(t), one.opposite(), one.opposite());
            bounds::lemma_in_bipolar(naive);
            bounds::lemma_sum_error(two.product(t), one.opposite());
            lemma_less_nothing(naive, blep(t, zero, o.dt));
        },
        Waveform::Pulse => if clear_of_the_edge(o) {
            let w = pulse_correction(o.dt, o.pulse_width);
            lemma_correction_width(o.dt, o.pulse_width);
            lemma_clear_of_the_start(t, w);
            lemma_clear_of_the_edge(t, o.pulse_width, w);
            bounds::lemma_in_unit(t);
            bounds::lemma_in_unit(o.pulse_width);
            single::law_order_is_numeric(t, o.pulse_width);
            let naive = if t.below(o.pulse_width) {
                one
            } else {
                one.opposite()
            };
            assert(one.opposite() == of(0xBF80_0000));
            let (b, c) = (blep(t, zero, w), blep(t, o.pulse_width, w));
            lemma_and_nothing(naive, b);
            lemma_less_nothing(naive.sum(b), c);
        },
        Waveform::Noise => {
            law_noise_stays_bounded(o, sine);
        },
        _ => {},
    }
}

proof fn lemma_and_nothing(x: Single, y: Single)
    requires
        x.finite(),
        y.magnitude() == 0,
    ensures
        x.sum(y).finite(),
        x.sum(y).units() == x.units(),
{
    bounds::lemma_unit();
    single::law_order_is_numeric(y, of(0));
    single::law_order_is_numeric(of(0), y);
    exact::lemma_exact_sum(x, y, x);
}

proof fn lemma_less_nothing(x: Single, y: Single)
    requires
        x.finite(),
        y.magnitude() == 0,
    ensures
        x.difference(y).finite(),
        x.difference(y).units() == x.units(),
{
    assert(y.opposite().magnitude() == 0);
    lemma_and_nothing(x, y.opposite());
}

/// A frequency below the highest is played as it is: in so many samples as it has to the
/// cycle, the phase goes round once.
pub proof fn law_the_phase_turns_as_often_as_asked(o: Oscillator, hz: Single)
    requires
        hz.finite(),
        o.sample_rate.finite(),
        0 < hz.units() <= ceiling(o.sample_rate).units(),
        ceiling(o.sample_rate).finite(),
        0 < o.sample_rate.units(),
        hz.units() <= o.sample_rate.units(),
        exact::whole(hz.units()) >= HIDDEN * o.sample_rate.units(),
    ensures
        exact::close(
            o.tuned(hz).dt.units() * o.sample_rate.units(),
            exact::whole(hz.units()),
            2,
        ),
        o.tuned(hz).phase == o.phase,
{
    let (zero, one) = (of(0), of(0x3F80_0000));
    let top = ceiling(o.sample_rate);
    bounds::lemma_unit();
    single::law_order_is_numeric(hz, zero);
    single::law_order_is_numeric(top, hz);
    let (u, v, w) = (hz.units(), o.sample_rate.units(), pow2(149) as int);
    assert(u * w <= w * v && u * w >= 0 * v) by (nonlinear_arith)
        requires
            0 <= u <= v,
            w >= 0,
    ;
    bounds::lemma_quotient_bounds(hz, o.sample_rate, one);
    bounds::lemma_quotient_bounds(hz, o.sample_rate, zero);
    exact::lemma_quotient_close(hz, o.sample_rate);
}

/// A sample on, the phase is on by what it turns in a sample, less the whole cycle if it
/// is round.
pub proof fn law_the_phase_goes_round(o: Oscillator, wave: Waveform)
    requires
        bounds::in_unit(o.phase),
        bounds::in_unit(o.dt),
        wave != Waveform::Noise,
    ensures
        ({
            let (there, here) = (o.after(wave).phase, o.phase.sum(o.dt));
            &&& bounds::rounded(here, o.phase.units() + o.dt.units())
            &&& here.units() < pow2(149) ==> there == here
            &&& here.units() >= pow2(149) ==> there.units() == here.units() - pow2(149)
        }),
{
    let (zero, one, two) = (of(0), of(0x3F80_0000), of(0x4000_0000));
    bounds::lemma_unit();
    bounds::lemma_small_wholes();
    bounds::lemma_in_unit(o.phase);
    bounds::lemma_in_unit(o.dt);
    let here = o.phase.sum(o.dt);
    bounds::lemma_sum_bounds(o.phase, o.dt, two);
    bounds::lemma_sum_bounds(o.phase, o.dt, zero);
    single::law_order_is_numeric(here, two);
    single::law_order_is_numeric(zero, here);
    bounds::lemma_sum_error(o.phase, o.dt);
    single::law_order_is_numeric(one, here);
    if here.units() >= pow2(149) {
        exact::lemma_less_one(here);
    }
}

} // verus!
