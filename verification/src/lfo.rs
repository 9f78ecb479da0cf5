//! The low-frequency oscillator: its shapes, its destinations, and how it moves.
//!
//! The sine and the smoothed random shape bend along a trigonometric curve. Which
//! point of it they need is said here, and a block takes that point.

use crate::bounds;
use crate::clock::ONE;
use crate::double::Double;
use crate::exact;
use crate::params::of;
use crate::rng;
use crate::rng::Rng;
use crate::single;
use crate::single::Single;
use vstd::arithmetic::power2::*;
use vstd::prelude::*;

verus! {

/// The shape of the oscillation.
#[derive(Debug, Clone, Copy, PartialEq, Eq, Structural)]
pub enum LfoWave {
    Sine,
    Triangle,
    Saw,
    Square,
    /// Holds a new random value for a whole cycle. Steppy, classic.
    SampleHold,
    /// Interpolates between random values. Drifting, organic.
    SmoothRandom,
}

impl Default for LfoWave {
    fn default() -> (x: LfoWave)
        ensures
            x == LfoWave::Sine,
    {
        LfoWave::Sine
    }
}

impl LfoWave {
    /// Every value, in the order of its number.
    pub const ALL: [LfoWave; 6] = [
        LfoWave::Sine,
        LfoWave::Triangle,
        LfoWave::Saw,
        LfoWave::Square,
        LfoWave::SampleHold,
        LfoWave::SmoothRandom,
    ];

    /// The number that a settings word holds for this value.
    pub open spec fn number(self) -> u32 {
        match self {
            LfoWave::Sine => 0,
            LfoWave::Triangle => 1,
            LfoWave::Saw => 2,
            LfoWave::Square => 3,
            LfoWave::SampleHold => 4,
            LfoWave::SmoothRandom => 5,
        }
    }

    /// The value with a given number; unknown numbers give `Sine` rather
    /// than a panic, because this runs on the audio thread.
    pub fn from_u32(v: u32) -> (x: LfoWave)
        ensures
            v < 6 ==> x.number() == v,
            v >= 6 ==> x == LfoWave::Sine,
    {
        match v {
            0 => LfoWave::Sine,
            1 => LfoWave::Triangle,
            2 => LfoWave::Saw,
            3 => LfoWave::Square,
            4 => LfoWave::SampleHold,
            5 => LfoWave::SmoothRandom,
            _ => LfoWave::Sine,
        }
    }

    /// The number of this value.
    pub fn to_u32(self) -> (v: u32)
        ensures
            v == self.number(),
            v < 6,
    {
        match self {
            LfoWave::Sine => 0,
            LfoWave::Triangle => 1,
            LfoWave::Saw => 2,
            LfoWave::Square => 3,
            LfoWave::SampleHold => 4,
            LfoWave::SmoothRandom => 5,
        }
    }

    /// What the value is called on the panel.
    pub open spec fn title(self) -> Seq<char> {
        match self {
            LfoWave::Sine => "Sine"@,
            LfoWave::Triangle => "Triangle"@,
            LfoWave::Saw => "Saw"@,
            LfoWave::Square => "Square"@,
            LfoWave::SampleHold => "S&H"@,
            LfoWave::SmoothRandom => "Random"@,
        }
    }

    pub fn name(self) -> (s: &'static str)
        ensures
            s@ == self.title(),
    {
        match self {
            LfoWave::Sine => "Sine",
            LfoWave::Triangle => "Triangle",
            LfoWave::Saw => "Saw",
            LfoWave::Square => "Square",
            LfoWave::SampleHold => "S&H",
            LfoWave::SmoothRandom => "Random",
        }
    }
}

/// A number names one value: each survives the trip through a settings word.
pub proof fn law_lfo_wave_number(a: LfoWave, b: LfoWave)
    ensures
        a.number() < 6,
        a.number() == b.number() ==> a == b,
{
}

/// Where the oscillator's output is routed.
#[derive(Debug, Clone, Copy, PartialEq, Eq, Structural)]
pub enum LfoTarget {
    Off,
    /// Filter cutoff, in octaves. The most useful destination by far.
    Cutoff,
    /// Pitch, in semitones. Small depths give vibrato, large ones give sirens.
    Pitch,
    /// Output level. Tremolo.
    Amplitude,
    /// Pulse width of the square oscillators. The classic PWM string sound.
    PulseWidth,
}

impl Default for LfoTarget {
    fn default() -> (x: LfoTarget)
        ensures
            x == LfoTarget::Off,
    {
        LfoTarget::Off
    }
}

impl LfoTarget {
    /// Every value, in the order of its number.
    pub const ALL: [LfoTarget; 5] = [
        LfoTarget::Off,
        LfoTarget::Cutoff,
        LfoTarget::Pitch,
        LfoTarget::Amplitude,
        LfoTarget::PulseWidth,
    ];

    /// The number that a settings word holds for this value.
    pub open spec fn number(self) -> u32 {
        match self {
            LfoTarget::Off => 0,
            LfoTarget::Cutoff => 1,
            LfoTarget::Pitch => 2,
            LfoTarget::Amplitude => 3,
            LfoTarget::PulseWidth => 4,
        }
    }

    /// The value with a given number; unknown numbers give `Off` rather
    /// than a panic, because this runs on the audio thread.
    pub fn from_u32(v: u32) -> (x: LfoTarget)
        ensures
            v < 5 ==> x.number() == v,
            v >= 5 ==> x == LfoTarget::Off,
    {
        match v {
            0 => LfoTarget::Off,
            1 => LfoTarget::Cutoff,
            2 => LfoTarget::Pitch,
            3 => LfoTarget::Amplitude,
            4 => LfoTarget::PulseWidth,
            _ => LfoTarget::Off,
        }
    }

    /// The number of this value.
    pub fn to_u32(self) -> (v: u32)
        ensures
            v == self.number(),
            v < 5,
    {
        match self {
            LfoTarget::Off => 0,
            LfoTarget::Cutoff => 1,
            LfoTarget::Pitch => 2,
            LfoTarget::Amplitude => 3,
            LfoTarget::PulseWidth => 4,
        }
    }

    /// What the value is called on the panel.
    pub open spec fn title(self) -> Seq<char> {
        match self {
            LfoTarget::Off => "Off"@,
            LfoTarget::Cutoff => "Cutoff"@,
            LfoTarget::Pitch => "Pitch"@,
            LfoTarget::Amplitude => "Amplitude"@,
            LfoTarget::PulseWidth => "Pulse Width"@,
        }
    }

    pub fn name(self) -> (s: &'static str)
        ensures
            s@ == self.title(),
    {
        match self {
            LfoTarget::Off => "Off",
            LfoTarget::Cutoff => "Cutoff",
            LfoTarget::Pitch => "Pitch",
            LfoTarget::Amplitude => "Amplitude",
            LfoTarget::PulseWidth => "Pulse Width",
        }
    }
}

/// A number names one value: each survives the trip through a settings word.
pub proof fn law_lfo_target_number(a: LfoTarget, b: LfoTarget)
    ensures
        a.number() < 5,
        a.number() == b.number() ==> a == b,
{
}

/// A low-frequency oscillator producing bipolar output.
#[derive(Debug, Clone)]
pub struct Lfo {
    /// Where in the cycle it is. Double precision for the same reason the clock
    /// uses it: a single precision phase drifts audibly within seconds.
    pub phase: Double,
    pub dt: Double,
    pub sample_rate: Single,
    /// Current and previous random values, for the random shapes.
    pub current_random: Single,
    pub previous_random: Single,
    pub rng: Rng,
}

/// What moves in an oscillator.
pub struct LfoModel {
    pub phase: Double,
    pub current: Single,
    pub previous: Single,
    /// The random generator's register.
    pub state: u64,
}

/// The random value that a register draws next.
pub open spec fn draw(state: u64) -> Single {
    Single { bits: rng::bipolar_bits((rng::scrambled(rng::shifted(state)) >> 40) as int) as u32 }
}

/// The phase as the shapes use it.
pub open spec fn turn(phase: Double) -> Single {
    phase.narrowed()
}

/// A shape at a phase, given the point of the curve that it needs.
pub open spec fn shape(wave: LfoWave, t: Single, current: Single, previous: Single, curve: Single) -> Single {
    match wave {
        LfoWave::Sine => curve,
        // Up for the first half, down for the second.
        LfoWave::Triangle => if t.below(of(0x3F00_0000)) {
            of(0x4080_0000).product(t).difference(of(0x3F80_0000))
        } else {
            of(0x4040_0000).difference(of(0x4080_0000).product(t))
        },
        LfoWave::Saw => of(0x4000_0000).product(t).difference(of(0x3F80_0000)),
        LfoWave::Square => if t.below(of(0x3F00_0000)) {
            of(0x3F80_0000)
        } else {
            of(0xBF80_0000)
        },
        LfoWave::SampleHold => current,
        // Cosine interpolation between the last two random values: smooth at both
        // ends, unlike a linear ramp.
        LfoWave::SmoothRandom => previous.sum(
            current.difference(previous).product(
                of(0x3F00_0000).difference(of(0x3F00_0000).product(curve)),
            ),
        ),
    }
}

impl LfoModel {
    /// A cycle over: a step back by one, and the next random value.
    pub open spec fn wrapped(self) -> LfoModel {
        LfoModel {
            phase: self.phase.difference(Double { bits: ONE }),
            current: draw(self.state),
            previous: self.current,
            state: rng::shifted(self.state),
        }
    }

    /// Whether the cycle is over.
    pub open spec fn over(self) -> bool {
        (Double { bits: ONE }).at_most(self.phase)
    }

    /// One sample later.
    pub open spec fn ticked(self, dt: Double) -> LfoModel {
        let m = LfoModel { phase: self.phase.sum(dt), ..self };
        if m.over() {
            m.wrapped()
        } else {
            m
        }
    }

    /// With every finished cycle taken off, but no more than `n` of them.
    pub open spec fn settled(self, n: nat) -> LfoModel
        decreases n,
    {
        if n == 0 || !self.over() {
            self
        } else {
            self.wrapped().settled((n - 1) as nat)
        }
    }

    /// A whole block later. A block can span several cycles, and each draws a
    /// random value, so the loop is bounded: this runs on the audio thread.
    pub open spec fn skipped(self, dt: Double, samples: int) -> LfoModel {
        let m = LfoModel {
            phase: self.phase.sum(dt.product(Double::nearest_to(samples))),
            ..self
        }.settled(64);
        if m.over() {
            LfoModel { phase: m.phase.fraction(), ..m }
        } else {
            m
        }
    }
}

impl View for Lfo {
    type V = LfoModel;

    open spec fn view(&self) -> LfoModel {
        LfoModel {
            phase: self.phase,
            current: self.current_random,
            previous: self.previous_random,
            state: self.rng.state(),
        }
    }
}

/// How much of a cycle goes by in a sample, at a rate in Hz, held to a musically sensible
/// range.
pub open spec fn pace(hz: Single, sample_rate: Single) -> Double {
    Double::widened(hz.clamped(of(0x3C23_D70A), of(0x4220_0000)).quotient(sample_rate))
}

impl Lfo {
    pub open spec fn wf(self) -> bool {
        self.rng.wf()
    }

    /// What the oscillator gives, for the point of the curve that the shape needs.
    pub open spec fn value(self, wave: LfoWave, curve: Single) -> Single {
        shape(wave, turn(self.phase), self.current_random, self.previous_random, curve)
    }

    /// A modulation at the start of its first cycle.
    pub open spec fn fresh(self, sample_rate: Single, seed: u64) -> bool {
        let first = if seed == 0 {
            rng::SPARE_SEED
        } else {
            seed
        };
        &&& self.wf()
        &&& self.sample_rate == sample_rate
        &&& self.phase == (Double { bits: 0 })
        &&& self.dt == (Double { bits: 0 })
        &&& self.current_random == draw(first)
        &&& self.previous_random == draw(rng::shifted(first))
        &&& self.rng.state() == rng::shifted(rng::shifted(first))
    }

    pub fn new(sample_rate: Single, seed: u64) -> (l: Lfo)
        ensures
            l.fresh(sample_rate, seed),
    {
        let mut rng: Rng = Rng::new(seed);
        let a: Single = rng.next_bipolar();
        let b: Single = rng.next_bipolar();
        Lfo {
            phase: Double { bits: 0 },
            dt: Double { bits: 0 },
            sample_rate,
            current_random: a,
            previous_random: b,
            rng,
        }
    }

    pub fn set_sample_rate(&mut self, sample_rate: Single)
        ensures
            *final(self) == (Lfo { sample_rate, ..*old(self) }),
    {
        self.sample_rate = sample_rate;
    }

    /// Sets the rate in Hz, held to a musically sensible range: below a hundredth
    /// it is a static offset, above forty it stops being a modulator.
    pub fn set_rate(&mut self, hz: Single)
        ensures
            *final(self) == (Lfo { dt: pace(hz, old(self).sample_rate), ..*old(self) }),
    {
        let held: Single = hz.clamp(of(0x3C23_D70A), of(0x4220_0000));
        self.dt = Double::from_single(held.over(self.sample_rate));
    }

    /// Restarts the cycle, so that every note gets the same modulation.
    pub fn retrigger(&mut self)
        ensures
            *final(self) == (Lfo { phase: Double { bits: 0 }, ..*old(self) }),
    {
        self.phase = Double { bits: 0 };
    }

    /// The angle whose sine or, for the smoothed random shape, whose cosine the
    /// shape needs; nothing for the others.
    pub fn angle(&self, wave: LfoWave) -> (a: Option<Single>)
        ensures
            a == (match wave {
                LfoWave::Sine => Some(turn(self.phase).product(of(0x40C9_0FDB))),
                LfoWave::SmoothRandom => Some(turn(self.phase).product(of(0x4049_0FDB))),
                _ => None,
            }),
    {
        let t: Single = self.phase.to_single();
        match wave {
            LfoWave::Sine => Some(t.times(of(0x40C9_0FDB))),
            LfoWave::SmoothRandom => Some(t.times(of(0x4049_0FDB))),
            _ => None,
        }
    }

    /// The current value, without advancing.
    pub fn peek(&self, wave: LfoWave, curve: Single) -> (x: Single)
        ensures
            x == self.value(wave, curve),
    {
        let t: Single = self.phase.to_single();
        let half: Single = of(0x3F00_0000);
        match wave {
            LfoWave::Sine => curve,
            LfoWave::Triangle => {
                let ramp: Single = of(0x4080_0000).times(t);
                if t.lt(half) {
                    ramp.minus(of(0x3F80_0000))
                } else {
                    of(0x4040_0000).minus(ramp)
                }
            },
            LfoWave::Saw => of(0x4000_0000).times(t).minus(of(0x3F80_0000)),
            LfoWave::Square => {
                if t.lt(half) {
                    of(0x3F80_0000)
                } else {
                    of(0xBF80_0000)
                }
            },
            LfoWave::SampleHold => self.current_random,
            LfoWave::SmoothRandom => {
                let s: Single = half.minus(half.times(curve));
                self.previous_random.plus(
                    self.current_random.minus(self.previous_random).times(s),
                )
            },
        }
    }

    /// A cycle ended: draws the next random value.
    fn wrap(&mut self)
        requires
            old(self).wf(),
        ensures
            final(self).wf(),
            final(self)@ == old(self)@.wrapped(),
            final(self).dt == old(self).dt,
            final(self).sample_rate == old(self).sample_rate,
    {
        self.phase = self.phase.minus(Double { bits: ONE });
        self.previous_random = self.current_random;
        self.current_random = self.rng.next_bipolar();
    }

    /// The value, and one sample on.
    pub fn next(&mut self, wave: LfoWave, curve: Single) -> (x: Single)
        requires
            old(self).wf(),
        ensures
            final(self).wf(),
            x == old(self).value(wave, curve),
            final(self)@ == old(self)@.ticked(old(self).dt),
            final(self).dt == old(self).dt,
            final(self).sample_rate == old(self).sample_rate,
    {
        let out: Single = self.peek(wave, curve);
        self.phase = self.phase.plus(self.dt);
        if (Double { bits: ONE }).le(self.phase) {
            self.wrap();
        }
        out
    }

    /// The value, and a whole block on.
    ///
    /// Modulation is applied once per control block. The phase advances by exactly
    /// as much as sample by sample, so the rate is the same either way.
    pub fn next_block(&mut self, wave: LfoWave, curve: Single, samples: usize) -> (x: Single)
        requires
            old(self).wf(),
        ensures
            final(self).wf(),
            x == old(self).value(wave, curve),
            final(self)@ == old(self)@.skipped(old(self).dt, samples as int),
            final(self).dt == old(self).dt,
            final(self).sample_rate == old(self).sample_rate,
    {
        let value: Single = self.peek(wave, curve);
        let advance: Double = self.dt.times(Double::from_whole(samples as u64));
        self.phase = self.phase.plus(advance);
        let ghost start = self@;
        let mut wraps: u32 = 0;
        let one: Double = Double { bits: ONE };
        while wraps < 64 && one.le(self.phase)
            invariant
                one.bits == ONE,
                wraps <= 64,
                self.wf(),
                self.dt == old(self).dt,
                self.sample_rate == old(self).sample_rate,
                self@.settled((64 - wraps) as nat) == start.settled(64),
            decreases 64 - wraps,
        {
            self.wrap();
            wraps = wraps + 1;
        }
        if one.le(self.phase) {
            self.phase = self.phase.fract();
        }
        value
    }
}

/// Every shape is bipolar and bounded: it stays between minus one and one, but for
/// a last place of the smoothed random one.
pub proof fn law_every_shape_is_bipolar_and_bounded(
    wave: LfoWave,
    t: Single,
    current: Single,
    previous: Single,
    curve: Single,
)
    requires
        bounds::in_unit(t),
        bounds::in_bipolar(current),
        bounds::in_bipolar(previous),
        bounds::in_bipolar(curve),
    ensures
        of(0xBF80_0001).at_most(shape(wave, t, current, previous, curve)),
        shape(wave, t, current, previous, curve).at_most(of(0x3F80_0001)),
        wave != LfoWave::SmoothRandom ==> bounds::in_bipolar(
            shape(wave, t, current, previous, curve),
        ),
{
    bounds::lemma_unit();
    bounds::lemma_in_unit(t);
    bounds::lemma_small_wholes();
    let (zero, half, one, two, three, four) = (
        of(0),
        of(0x3F00_0000),
        of(0x3F80_0000),
        of(0x4000_0000),
        of(0x4040_0000),
        of(0x4080_0000),
    );
    let minus = of(0xBF80_0000);
    let (u, w) = (t.units(), pow2(149) as int);
    bounds::lemma_opposite(one);
    assert(one.opposite() == minus);
    match wave {
        LfoWave::Triangle => {
            let ramp = four.product(t);
            single::law_order_is_numeric(t, half);
            assert((4 * w) * u >= 0 * w && 0 * w == 0) by (nonlinear_arith)
                requires
                    u >= 0,
                    w >= 0,
            ;
            if t.below(half) {
                assert((4 * w) * u <= (2 * w) * w) by (nonlinear_arith)
                    requires
                        2 * u <= w,
                        w >= 0,
                ;
                bounds::lemma_product_bounds(four, t, two);
                bounds::lemma_product_bounds(four, t, zero);
                single::law_order_is_numeric(ramp, two);
                single::law_order_is_numeric(zero, ramp);
                bounds::lemma_sum_bounds(ramp, minus, one);
                bounds::lemma_sum_bounds(ramp, minus, minus);
            } else {
                assert((4 * w) * u >= (2 * w) * w) by (nonlinear_arith)
                    requires
                        2 * u >= w,
                        w >= 0,
                ;
                assert((4 * w) * u <= (4 * w) * w) by (nonlinear_arith)
                    requires
                        u <= w,
                        w >= 0,
                ;
                bounds::lemma_product_bounds(four, t, two);
                bounds::lemma_product_bounds(four, t, four);
                single::law_order_is_numeric(two, ramp);
                single::law_order_is_numeric(ramp, four);
                bounds::lemma_opposite(ramp);
                bounds::lemma_sum_bounds(three, ramp.opposite(), one);
                bounds::lemma_sum_bounds(three, ramp.opposite(), minus);
            }
        },
        LfoWave::Saw => {
            let ramp = two.product(t);
            assert(0 <= (2 * w) * u <= (2 * w) * w && 0 * w == 0) by (nonlinear_arith)
                requires
                    0 <= u <= w,
            ;
            bounds::lemma_product_bounds(two, t, two);
            bounds::lemma_product_bounds(two, t, zero);
            single::law_order_is_numeric(ramp, two);
            single::law_order_is_numeric(zero, ramp);
            bounds::lemma_sum_bounds(ramp, minus, one);
            bounds::lemma_sum_bounds(ramp, minus, minus);
        },
        LfoWave::SmoothRandom => {
            lemma_smooth(current, previous, curve);
        },
        _ => {},
    }
}

proof fn lemma_smooth(current: Single, previous: Single, curve: Single)
    requires
        bounds::in_bipolar(current),
        bounds::in_bipolar(previous),
        bounds::in_bipolar(curve),
    ensures
        ({
            let x = shape(LfoWave::SmoothRandom, of(0), current, previous, curve);
            of(0xBF80_0001).at_most(x) && x.at_most(of(0x3F80_0001))
        }),
{
    let (zero, half, one, two) = (of(0), of(0x3F00_0000), of(0x3F80_0000), of(0x4000_0000));
    bounds::lemma_unit();
    bounds::lemma_small_wholes();
    bounds::lemma_in_bipolar(current);
    bounds::lemma_in_bipolar(previous);
    bounds::lemma_in_bipolar(curve);
    let w = pow2(149) as int;
    // How far along: between zero and one.
    let c = half.product(curve);
    let (k, h) = (curve.units(), half.units());
    let less = half.opposite();
    bounds::lemma_opposite(half);
    assert(h * k <= h * w && h * k >= -(h * w) && -h * w == -(h * w)) by (nonlinear_arith)
        requires
            -w <= k <= w,
            h >= 0,
    ;
    bounds::lemma_product_bounds(half, curve, half);
    bounds::lemma_product_bounds(half, curve, less);
    single::law_order_is_numeric(c, half);
    single::law_order_is_numeric(less, c);
    bounds::lemma_opposite(c);
    let s = half.difference(c);
    bounds::lemma_sum_bounds(half, c.opposite(), one);
    bounds::lemma_sum_bounds(half, c.opposite(), zero);
    bounds::lemma_in_unit(s);
    // The way to go: between minus two and two, and off by a last place at most.
    bounds::lemma_opposite(previous);
    bounds::lemma_opposite(two);
    let d = current.difference(previous);
    bounds::lemma_sum_bounds(current, previous.opposite(), two);
    bounds::lemma_sum_bounds(current, previous.opposite(), two.opposite());
    assert(d.finite());
    bounds::lemma_sum_error(current, previous.opposite());
    let p = d.product(s);
    let (v, f) = (d.units(), s.units());
    assert((v >= 0 ==> 0 <= v * f <= v * w) && (v <= 0 ==> v * w <= v * f <= 0) && 0 * w == 0)
        by (nonlinear_arith)
        requires
            0 <= f <= w,
    ;
    bounds::lemma_product_bounds(d, s, d);
    bounds::lemma_product_bounds(d, s, zero);
    assert(p.finite());
    single::law_order_is_numeric(p, d);
    single::law_order_is_numeric(d, p);
    single::law_order_is_numeric(p, zero);
    single::law_order_is_numeric(zero, p);
    bounds::lemma_next_above_one();
    bounds::lemma_sum_bounds(previous, p, of(0x3F80_0001));
    bounds::lemma_sum_bounds(previous, p, of(0xBF80_0001));
}

/// The random values lie between minus one and one.
pub proof fn law_random_values_are_bipolar(state: u64)
    ensures
        bounds::in_bipolar(draw(state)),
{
    let w = rng::scrambled(rng::shifted(state));
    assert(w >> 40 < 0x0100_0000) by (bit_vector);
    let k = (w >> 40) as int;
    if k >= 0x0080_0000 {
        single::lemma_ratio_at_most_one((k - 0x0080_0000) as nat, 0x0080_0000);
    } else {
        single::lemma_ratio_at_most_one((0x0080_0000 - k) as nat, 0x0080_0000);
    }
}

/// Whether one oscillator is half a cycle on from another that is in the first half.
pub open spec fn half_a_cycle_on(a: Lfo, b: Lfo) -> bool {
    &&& bounds::in_unit(turn(a.phase))
    &&& bounds::in_unit(turn(b.phase))
    &&& 2 * turn(a.phase).units() < pow2(149)
    &&& 2 * turn(b.phase).units() == 2 * turn(a.phase).units() + pow2(149)
}

/// A square wave is one for half a cycle and minus one for the other half.
pub proof fn law_a_square_swings_both_ways(a: Lfo, b: Lfo, curve: Single)
    requires
        half_a_cycle_on(a, b),
    ensures
        a.value(LfoWave::Square, curve).units() == pow2(149),
        b.value(LfoWave::Square, curve).units() == -pow2(149),
{
    let half = of(0x3F00_0000);
    bounds::lemma_unit();
    bounds::lemma_small_wholes();
    bounds::lemma_in_unit(turn(a.phase));
    bounds::lemma_in_unit(turn(b.phase));
    single::law_order_is_numeric(turn(a.phase), half);
    single::law_order_is_numeric(turn(b.phase), half);
}

/// A triangle half a cycle on is the negative of itself.
pub proof fn law_a_triangle_swings_both_ways(a: Lfo, b: Lfo, curve: Single)
    requires
        half_a_cycle_on(a, b),
    ensures
        a.value(LfoWave::Triangle, curve).key() == -b.value(LfoWave::Triangle, curve).key(),
{
    let (t, u) = (turn(a.phase), turn(b.phase));
    let (half, one, three) = (of(0x3F00_0000), of(0x3F80_0000), of(0x4040_0000));
    bounds::lemma_unit();
    bounds::lemma_small_wholes();
    bounds::lemma_in_unit(t);
    bounds::lemma_in_unit(u);
    single::law_order_is_numeric(t, half);
    single::law_order_is_numeric(u, half);
    exact::lemma_small_multiples(t);
    exact::lemma_small_multiples(u);
    bounds::lemma_opposite(one);
    let ramp = of(0x4080_0000).product(u);
    bounds::lemma_opposite(ramp);
    exact::lemma_opposite_sums(
        of(0x4080_0000).product(t),
        one.opposite(),
        three,
        ramp.opposite(),
    );
}

/// A triangle rises from minus one to one over the first half of the cycle, evenly, and a
/// saw over the whole of it: each is within a rounding of a straight line.
pub proof fn law_ramps_are_straight(l: Lfo, curve: Single)
    requires
        bounds::in_unit(turn(l.phase)),
    ensures
        ({
            let (t, w) = (turn(l.phase).units(), pow2(149) as int);
            let rise = if 2 * t < w {
                4 * t - w
            } else {
                3 * w - 4 * t
            };
            &&& bounds::rounded(l.value(LfoWave::Triangle, curve), rise)
            &&& bounds::rounded(l.value(LfoWave::Saw, curve), 2 * t - w)
        }),
{
    let t = turn(l.phase);
    let (half, one, three) = (of(0x3F00_0000), of(0x3F80_0000), of(0x4040_0000));
    law_every_shape_is_bipolar_and_bounded(
        LfoWave::Triangle,
        t,
        of(0),
        of(0),
        of(0),
    );
    law_every_shape_is_bipolar_and_bounded(LfoWave::Saw, t, of(0), of(0), of(0));
    bounds::lemma_in_bipolar(l.value(LfoWave::Triangle, curve));
    bounds::lemma_in_bipolar(l.value(LfoWave::Saw, curve));
    bounds::lemma_unit();
    bounds::lemma_small_wholes();
    bounds::lemma_in_unit(t);
    single::law_order_is_numeric(t, half);
    exact::lemma_small_multiples(t);
    bounds::lemma_opposite(one);
    let ramp = of(0x4080_0000).product(t);
    bounds::lemma_opposite(ramp);
    bounds::lemma_sum_error(of(0x4000_0000).product(t), one.opposite());
    if t.below(half) {
        bounds::lemma_sum_error(ramp, one.opposite());
    } else {
        bounds::lemma_sum_error(three, ramp.opposite());
    }
}

/// The random shapes: one holds a value until its cycle is over, and then draws another;
/// the other starts its cycle, where the cosine is one, from the value that the last cycle
/// was on its way to, and is on its way to the one just drawn.
pub proof fn law_random_shapes_change_with_the_cycle(l: Lfo, m: LfoModel, curve: Single)
    requires
        l@ == m,
        bounds::in_bipolar(m.current),
        bounds::in_bipolar(m.previous),
    ensures
        l.value(LfoWave::SampleHold, curve) == m.current,
        m.wrapped().previous == m.current,
        m.wrapped().current == draw(m.state),
        l.value(LfoWave::SmoothRandom, of(0x3F80_0000)).key() == m.previous.key(),
        !m.over() ==> m.settled(1) == m,
{
    let (zero, half, one) = (of(0), of(0x3F00_0000), of(0x3F80_0000));
    bounds::lemma_unit();
    bounds::lemma_small_wholes();
    bounds::lemma_in_bipolar(m.current);
    bounds::lemma_in_bipolar(m.previous);
    bounds::lemma_opposite(m.previous);
    bounds::lemma_opposite(half);
    let h = half.units();
    exact::lemma_exact_product(half, one, half);
    exact::lemma_exact_sum(half, half.opposite(), zero);
    let s = half.difference(half.product(one));
    let d = m.current.difference(m.previous);
    let two = of(0x4000_0000);
    bounds::lemma_opposite(two);
    bounds::lemma_sum_bounds(m.current, m.previous.opposite(), two);
    bounds::lemma_sum_bounds(m.current, m.previous.opposite(), two.opposite());
    bounds::lemma_product_with_zero(d, s);
    exact::lemma_exact_sum(m.previous, d.product(s), m.previous);
}

} // verus!
