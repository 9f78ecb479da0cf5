//! A plate reverb, after Jon Dattorro's 1997 design.
//!
//! A pre-delay and four cascaded all-pass diffusers feed a figure-of-eight tank: two
//! halves, each an all-pass, a delay, a damping filter, another all-pass and another
//! delay, each feeding the other. Seven taps per channel, from points scattered
//! through both halves, turn the mono tank into a stereo output.
//!
//! The tank's first all-pass pair is read at a slowly wobbling place.

use crate::bounds;
use crate::clock::BLOCK;
use crate::curve;
use crate::curve::{read, Curve};
use crate::line;
use crate::line::DelayLine;
use crate::params;
use crate::params::{of, Params};
use crate::single;
use crate::single::Single;
use crate::smooth;
use crate::smooth::Smoothed;
use vstd::prelude::*;

verus! {

/// The longest line built, in samples: no sample rate asks for more.
pub const LONGEST: u64 = 0x1000_0000;

/// A number rounded to the nearest integer, halves upwards, and held to what a line
/// can be long.
pub open spec fn whole_samples(x: Single) -> int {
    let n = x.truncated() + (if of(0x3F00_0000).at_most(x.fraction()) {
        1int
    } else {
        0
    });
    if n > LONGEST {
        LONGEST as int
    } else {
        n
    }
}

/// A number rounded up to an integer, and held to what a line can be long.
pub open spec fn samples_up(x: Single) -> int {
    let n = x.truncated() + (if of(0).below(x.fraction()) {
        1int
    } else {
        0
    });
    if n > LONGEST {
        LONGEST as int
    } else {
        n
    }
}

/// The sample rate an effect is built for: 48000 where it is handed none.
pub open spec fn usable_rate(sample_rate: Single) -> Single {
    if of(0).below(sample_rate) {
        sample_rate
    } else {
        of(0x473B_8000)
    }
}

/// The coefficient of a control of an effect that takes so many milliseconds. Controls
/// move once per chunk.
pub open spec fn glide<F: Fn(Curve, Single) -> Single>(f: F, ms: Single, sample_rate: Single) -> Single {
    Smoothed::coef_for(
        f,
        ms,
        usable_rate(sample_rate).quotient(Single::nearest_to(BLOCK as int)),
    )
}

pub fn glide_coef<F: Fn(Curve, Single) -> Single + Copy>(ms: Single, sample_rate: Single, f: F) -> (c: Single)
    requires
        curve::gives_curves(f),
    ensures
        c == glide(f, ms, sample_rate),
{
    let rate: Single = if of(0).lt(sample_rate) {
        sample_rate
    } else {
        of(0x473B_8000)
    };
    let mut x: Smoothed = Smoothed::new(of(0), of(0));
    x.set_time(ms, rate.over(Single::from_whole(BLOCK as u64)), f);
    x.coef
}

/// A length given for the design's own sample rate, at another.
pub open spec fn scaled_length(length: int, ratio: Single) -> int {
    let n = whole_samples(Single::nearest_to(length).product(ratio));
    if n < 1 {
        1
    } else {
        n
    }
}

fn round_samples(x: Single) -> (n: usize)
    ensures
        n == whole_samples(x),
{
    let t: u64 = x.to_whole();
    if t >= LONGEST {
        LONGEST as usize
    } else if of(0x3F00_0000).le(x.fract()) {
        (t + 1) as usize
    } else {
        t as usize
    }
}

pub fn ceil_samples(x: Single) -> (n: usize)
    ensures
        n == samples_up(x),
{
    let t: u64 = x.to_whole();
    if t >= LONGEST {
        LONGEST as usize
    } else if of(0).lt(x.fract()) {
        (t + 1) as usize
    } else {
        t as usize
    }
}

fn scaled(length: u64, ratio: Single) -> (n: usize)
    ensures
        n == scaled_length(length as int, ratio),
        1 <= n <= LONGEST,
{
    let n: usize = round_samples(Single::from_whole(length).times(ratio));
    if n < 1 {
        1
    } else {
        n
    }
}

/// A line that is read at a fixed place.
pub struct Tap {
    pub line: Seq<Single>,
    pub length: int,
}

impl Tap {
    /// What comes out at the end of it.
    pub open spec fn end(self) -> Single {
        line::ago(self.line, self.length - 1)
    }

    /// What comes out a little off the end of it.
    pub open spec fn near_end(self, excursion: Single) -> Single {
        line::between(self.line, Single::nearest_to(self.length - 1).sum(excursion))
    }

    pub open spec fn fed(self, value: Single) -> Tap {
        Tap { line: line::pushed(self.line, value), ..self }
    }

    pub open spec fn cleared(self) -> Tap {
        Tap { line: line::silent(self.line.len()), ..self }
    }

    /// A silent line of a given length that reaches so far back.
    pub open spec fn fresh(self, length: int, reach: int) -> bool {
        &&& self.length == length
        &&& self.line == line::silent(self.line.len())
        &&& line::reaches(self.line.len(), reach)
    }

    /// A silent line, its length given for the design's own sample rate, with so much room
    /// beyond the end.
    pub open spec fn scaled(self, length: int, ratio: Single, headroom: int) -> bool {
        self.fresh(scaled_length(length, ratio), scaled_length(length, ratio) + headroom + 2)
    }

    /// Whether it is silent, and remembers what is fed to it until it comes out at the end.
    pub open spec fn ready(self) -> bool {
        &&& self.line == line::silent(self.line.len())
        &&& 1 <= self.length < self.line.len()
    }
}

/// What a Schroeder all-pass stores, given what it read.
pub open spec fn stored(input: Single, c: Single, delayed: Single) -> Single {
    input.sum(c.product(delayed))
}

/// What a Schroeder all-pass gives, given what it read: flat in magnitude, scrambled
/// in phase.
pub open spec fn diffused(input: Single, c: Single, delayed: Single) -> Single {
    delayed.difference(c.product(stored(input, c, delayed)))
}

/// A Schroeder all-pass.
#[derive(Debug)]
pub struct Allpass {
    pub line: DelayLine,
    pub length: usize,
}

impl View for Allpass {
    type V = Tap;

    open spec fn view(&self) -> Tap {
        Tap { line: self.line@, length: self.length as int }
    }
}

impl Allpass {
    pub open spec fn wf(self) -> bool {
        self.line.wf() && self.length >= 1
    }

    fn new(length: usize, headroom: usize) -> (a: Allpass)
        requires
            1 <= length <= LONGEST,
            headroom <= LONGEST,
        ensures
            a.wf(),
            a@.fresh(length as int, length + headroom + 2),
    {
        Allpass { line: DelayLine::new(length + headroom + 2), length }
    }

    fn process(&mut self, input: Single, c: Single) -> (x: Single)
        requires
            old(self).wf(),
        ensures
            final(self).wf(),
            x == diffused(input, c, old(self)@.end()),
            final(self)@ == old(self)@.fed(stored(input, c, old(self)@.end())),
    {
        let delayed: Single = self.line.read(self.length - 1);
        let stored: Single = input.plus(c.times(delayed));
        self.line.write(stored);
        delayed.minus(c.times(stored))
    }

    /// As `process`, read off the end by `excursion` samples.
    fn process_modulated(&mut self, input: Single, c: Single, excursion: Single) -> (x: Single)
        requires
            old(self).wf(),
        ensures
            final(self).wf(),
            x == diffused(input, c, old(self)@.near_end(excursion)),
            final(self)@ == old(self)@.fed(stored(input, c, old(self)@.near_end(excursion))),
    {
        let delayed: Single = self.line.read_frac(
            Single::from_whole((self.length - 1) as u64).plus(excursion),
        );
        let stored: Single = input.plus(c.times(delayed));
        self.line.write(stored);
        delayed.minus(c.times(stored))
    }

    fn tap(&self, offset: usize) -> (x: Single)
        requires
            self.wf(),
        ensures
            x == line::ago(self@.line, offset as int),
    {
        self.line.read(offset)
    }

    fn clear(&mut self)
        requires
            old(self).wf(),
        ensures
            final(self).wf(),
            final(self)@ == old(self)@.cleared(),
    {
        self.line.clear();
    }
}

/// A delay inside the tank: fixed length, plus taps at other offsets.
#[derive(Debug)]
pub struct TankDelay {
    pub line: DelayLine,
    pub length: usize,
}

impl View for TankDelay {
    type V = Tap;

    open spec fn view(&self) -> Tap {
        Tap { line: self.line@, length: self.length as int }
    }
}

impl TankDelay {
    pub open spec fn wf(self) -> bool {
        self.line.wf() && self.length >= 1
    }

    fn new(length: usize) -> (d: TankDelay)
        requires
            1 <= length <= LONGEST,
        ensures
            d.wf(),
            d@.fresh(length as int, length + 2),
    {
        TankDelay { line: DelayLine::new(length + 2), length }
    }

    fn process(&mut self, input: Single) -> (x: Single)
        requires
            old(self).wf(),
        ensures
            final(self).wf(),
            final(self)@ == old(self)@.fed(input),
            x == final(self)@.end(),
    {
        self.line.write(input);
        self.line.read(self.length - 1)
    }

    fn tap(&self, offset: usize) -> (x: Single)
        requires
            self.wf(),
        ensures
            x == line::ago(self@.line, offset as int),
    {
        self.line.read(offset)
    }

    fn clear(&mut self)
        requires
            old(self).wf(),
        ensures
            final(self).wf(),
            final(self)@ == old(self)@.cleared(),
    {
        self.line.clear();
    }
}

/// The four input diffusers.
pub struct Diffusion {
    pub a: Tap,
    pub b: Tap,
    pub c: Tap,
    pub d: Tap,
}

impl Diffusion {
    /// Silent diffusers for a sample rate.
    pub open spec fn fresh(self, ratio: Single) -> bool {
        &&& self.a.scaled(142, ratio, 0)
        &&& self.b.scaled(107, ratio, 0)
        &&& self.c.scaled(379, ratio, 0)
        &&& self.d.scaled(277, ratio, 0)
    }

    pub open spec fn after_a(self, x: Single) -> Single {
        diffused(x, of(0x3F40_0000), self.a.end())
    }

    pub open spec fn after_b(self, x: Single) -> Single {
        diffused(self.after_a(x), of(0x3F40_0000), self.b.end())
    }

    pub open spec fn after_c(self, x: Single) -> Single {
        diffused(self.after_b(x), of(0x3F20_0000), self.c.end())
    }

    /// What comes out of all four.
    pub open spec fn out(self, x: Single) -> Single {
        diffused(self.after_c(x), of(0x3F20_0000), self.d.end())
    }

    pub open spec fn after(self, x: Single) -> Diffusion {
        Diffusion {
            a: self.a.fed(stored(x, of(0x3F40_0000), self.a.end())),
            b: self.b.fed(stored(self.after_a(x), of(0x3F40_0000), self.b.end())),
            c: self.c.fed(stored(self.after_b(x), of(0x3F20_0000), self.c.end())),
            d: self.d.fed(stored(self.after_c(x), of(0x3F20_0000), self.d.end())),
        }
    }

    pub open spec fn cleared(self) -> Diffusion {
        Diffusion {
            a: self.a.cleared(),
            b: self.b.cleared(),
            c: self.c.cleared(),
            d: self.d.cleared(),
        }
    }
}

/// The input diffusers.
#[derive(Debug)]
pub struct Diffuser {
    pub a: Allpass,
    pub b: Allpass,
    pub c: Allpass,
    pub d: Allpass,
}

impl View for Diffuser {
    type V = Diffusion;

    open spec fn view(&self) -> Diffusion {
        Diffusion { a: self.a@, b: self.b@, c: self.c@, d: self.d@ }
    }
}

impl Diffuser {
    pub open spec fn wf(self) -> bool {
        self.a.wf() && self.b.wf() && self.c.wf() && self.d.wf()
    }

    fn new(ratio: Single) -> (d: Diffuser)
        ensures
            d.wf(),
            d@ == d@.cleared(),
            d@.fresh(ratio),
    {
        Diffuser {
            a: Allpass::new(scaled(142, ratio), 0),
            b: Allpass::new(scaled(107, ratio), 0),
            c: Allpass::new(scaled(379, ratio), 0),
            d: Allpass::new(scaled(277, ratio), 0),
        }
    }

    fn process(&mut self, input: Single) -> (x: Single)
        requires
            old(self).wf(),
        ensures
            final(self).wf(),
            x == old(self)@.out(input),
            final(self)@ == old(self)@.after(input),
    {
        let a: Single = self.a.process(input, of(0x3F40_0000));
        let b: Single = self.b.process(a, of(0x3F40_0000));
        let c: Single = self.c.process(b, of(0x3F20_0000));
        self.d.process(c, of(0x3F20_0000))
    }

    fn clear(&mut self)
        requires
            old(self).wf(),
        ensures
            final(self).wf(),
            final(self)@ == old(self)@.cleared(),
    {
        self.a.clear();
        self.b.clear();
        self.c.clear();
        self.d.clear();
    }
}

/// What shapes the tail over a chunk.
#[derive(Debug, Clone, Copy, PartialEq, Eq, Structural)]
pub struct Tail {
    pub decay: Single,
    /// How much of the damping filter's state stays.
    pub keep: Single,
    /// The second diffusion pair. Tied to the decay, so that a long tail is also a
    /// smoother one.
    pub diffusion: Single,
}

/// What shapes a tail of a given decay and damping.
pub open spec fn tail_of(decay: Single, damping: Single) -> Tail {
    Tail {
        decay,
        // Short of one, which would freeze the filter and silence the tank.
        keep: damping.product(of(0x3F73_3333)),
        diffusion: decay.sum(of(0x3E19_999A)).clamped(of(0x3E80_0000), of(0x3F00_0000)),
    }
}

/// One half of the tank.
pub struct Side {
    pub ap1: Tap,
    pub delay1: Tap,
    pub ap2: Tap,
    pub delay2: Tap,
    pub damp: Single,
}

impl Side {
    /// A silent half, its lines as long as given for the design's own sample rate.
    pub open spec fn fresh(
        self,
        ap1: int,
        delay1: int,
        ap2: int,
        delay2: int,
        ratio: Single,
        headroom: int,
    ) -> bool {
        &&& self.ap1.scaled(ap1, ratio, headroom)
        &&& self.delay1.scaled(delay1, ratio, 0)
        &&& self.ap2.scaled(ap2, ratio, 0)
        &&& self.delay2.scaled(delay2, ratio, 0)
    }

    /// After an input sample, with the first all-pass read off its end by
    /// `excursion`.
    pub open spec fn after(self, input: Single, excursion: Single, t: Tail) -> Side {
        let read1 = self.ap1.near_end(excursion);
        let delay1 = self.delay1.fed(diffused(input, of(0x3F33_3333), read1));
        let damp = self.damp.sum(
            of(0x3F80_0000).difference(t.keep).product(delay1.end().difference(self.damp)),
        );
        let read2 = self.ap2.end();
        let into2 = damp.product(t.decay);
        Side {
            ap1: self.ap1.fed(stored(input, of(0x3F33_3333), read1)),
            delay1,
            ap2: self.ap2.fed(stored(into2, t.diffusion, read2)),
            delay2: self.delay2.fed(diffused(into2, t.diffusion, read2)),
            damp,
        }
    }

    pub open spec fn cleared(self) -> Side {
        Side {
            ap1: self.ap1.cleared(),
            delay1: self.delay1.cleared(),
            ap2: self.ap2.cleared(),
            delay2: self.delay2.cleared(),
            damp: of(0),
        }
    }
}

/// One half of the tank.
#[derive(Debug)]
pub struct Half {
    pub ap1: Allpass,
    pub delay1: TankDelay,
    pub ap2: Allpass,
    pub delay2: TankDelay,
    pub damp: Single,
}

impl View for Half {
    type V = Side;

    open spec fn view(&self) -> Side {
        Side {
            ap1: self.ap1@,
            delay1: self.delay1@,
            ap2: self.ap2@,
            delay2: self.delay2@,
            damp: self.damp,
        }
    }
}

impl Half {
    pub open spec fn wf(self) -> bool {
        self.ap1.wf() && self.delay1.wf() && self.ap2.wf() && self.delay2.wf()
    }

    /// A silent half, its lines as long as given for the design's own sample rate.
    fn new(ap1: u64, delay1: u64, ap2: u64, delay2: u64, ratio: Single, headroom: usize) -> (h: Half)
        requires
            headroom <= LONGEST,
        ensures
            h.wf(),
            h@ == h@.cleared(),
            h@.fresh(
                ap1 as int,
                delay1 as int,
                ap2 as int,
                delay2 as int,
                ratio,
                headroom as int,
            ),
    {
        Half {
            ap1: Allpass::new(scaled(ap1, ratio), headroom),
            delay1: TankDelay::new(scaled(delay1, ratio)),
            ap2: Allpass::new(scaled(ap2, ratio), 0),
            delay2: TankDelay::new(scaled(delay2, ratio)),
            damp: of(0),
        }
    }

    fn process(&mut self, input: Single, excursion: Single, t: Tail) -> (x: Single)
        requires
            old(self).wf(),
        ensures
            final(self).wf(),
            final(self)@ == old(self)@.after(input, excursion, t),
            x == final(self)@.delay2.end(),
    {
        let one: Single = of(0x3F80_0000);
        let a: Single = self.ap1.process_modulated(input, of(0x3F33_3333), excursion);
        let b: Single = self.delay1.process(a);
        self.damp = self.damp.plus(one.minus(t.keep).times(b.minus(self.damp)));
        let c: Single = self.ap2.process(self.damp.times(t.decay), t.diffusion);
        self.delay2.process(c)
    }

    fn clear(&mut self)
        requires
            old(self).wf(),
        ensures
            final(self).wf(),
            final(self)@ == old(self)@.cleared(),
    {
        self.ap1.clear();
        self.delay1.clear();
        self.ap2.clear();
        self.delay2.clear();
        self.damp = of(0);
    }
}

/// The tap offsets of one output channel. The first four lie in the half across from
/// it, the others in its own; that asymmetry is what decorrelates the two.
pub type Offsets = [usize; 7];

/// What one channel draws from the tank.
pub open spec fn drawn(across: Side, own: Side, at: Seq<usize>) -> Single {
    of(0x3F19_999A).product(
        line::ago(across.delay1.line, at[0] as int).sum(
            line::ago(across.delay1.line, at[1] as int),
        ).difference(line::ago(across.ap2.line, at[2] as int)).sum(
            line::ago(across.delay2.line, at[3] as int),
        ).difference(line::ago(own.delay1.line, at[4] as int)).difference(
            line::ago(own.ap2.line, at[5] as int),
        ).difference(line::ago(own.delay2.line, at[6] as int)),
    )
}

fn draw(across: &Half, own: &Half, at: &Offsets) -> (x: Single)
    requires
        across.wf(),
        own.wf(),
    ensures
        x == drawn(across@, own@, at@),
{
    of(0x3F19_999A).times(
        across.delay1.tap(at[0]).plus(across.delay1.tap(at[1])).minus(across.ap2.tap(at[2])).plus(
            across.delay2.tap(at[3]),
        ).minus(own.delay1.tap(at[4])).minus(own.ap2.tap(at[5])).minus(own.delay2.tap(at[6])),
    )
}

/// The wobble's phase one sample on.
pub open spec fn wobbled(phase: Single, increment: Single) -> Single {
    let p = phase.sum(increment);
    if of(0x3F80_0000).at_most(p) {
        p.difference(of(0x3F80_0000))
    } else {
        p
    }
}

/// The wobble's phase `n` samples on.
pub open spec fn phase_after(phase: Single, increment: Single, n: int) -> Single
    decreases n,
{
    if n <= 0 {
        phase
    } else {
        wobbled(phase_after(phase, increment, n - 1), increment)
    }
}

/// The angle that the first half wobbles by, at a phase.
pub open spec fn angle(phase: Single) -> Single {
    phase.product(of(0x40C9_0FDB))
}

/// The tank and what leads into it.
pub struct Plate {
    pub predelay: Seq<Single>,
    pub bandwidth: Single,
    pub diffusion: Diffusion,
    pub left: Side,
    pub right: Side,
    /// Each half's output, carried to the other half on the next sample: that gap is
    /// what makes a loop that feeds itself computable.
    pub node_l: Single,
    pub node_r: Single,
    pub phase: Single,
}

/// What stays the same over a chunk.
pub struct Setting {
    pub predelay: Single,
    pub tail: Tail,
    /// How far the wobble reaches, in samples.
    pub excursion: Single,
    /// The wobble's phase per sample.
    pub increment: Single,
}

impl Plate {
    /// The pre-delay after a sample. The tank is mono in.
    pub open spec fn held(self, dry: (Single, Single)) -> Seq<Single> {
        line::pushed(self.predelay, dry.0.sum(dry.1).product(of(0x3F00_0000)))
    }

    /// The input low-pass after a sample.
    pub open spec fn narrowed(self, dry: (Single, Single), s: Setting) -> Single {
        self.bandwidth.sum(
            of(0x3F7F_DF3B).product(
                line::between(self.held(dry), s.predelay).difference(self.bandwidth),
            ),
        )
    }

    /// The plate after a sample, with the sines of the two wobbles.
    #[verifier::opaque]
    pub open spec fn after(self, dry: (Single, Single), sines: (Single, Single), s: Setting) -> Plate {
        let low = self.narrowed(dry, s);
        let x = self.diffusion.out(low);
        let left = self.left.after(x.sum(self.node_r), sines.0.product(s.excursion), s.tail);
        let right = self.right.after(x.sum(self.node_l), sines.1.product(s.excursion), s.tail);
        Plate {
            predelay: self.held(dry),
            bandwidth: low,
            diffusion: self.diffusion.after(low),
            left,
            right,
            node_l: left.delay2.end().product(s.tail.decay),
            node_r: right.delay2.end().product(s.tail.decay),
            phase: wobbled(self.phase, s.increment),
        }
    }

    /// The plate after the first `n` samples of a chunk.
    pub open spec fn after_all(
        self,
        left: Seq<Single>,
        right: Seq<Single>,
        sines: Seq<(Single, Single)>,
        s: Setting,
        n: int,
    ) -> Plate
        decreases n,
    {
        if n <= 0 {
            self
        } else {
            self.after_all(left, right, sines, s, n - 1).after(
                (left[n - 1], right[n - 1]),
                sines[n - 1],
                s,
            )
        }
    }

    pub open spec fn cleared(self) -> Plate {
        Plate {
            predelay: line::silent(self.predelay.len()),
            bandwidth: of(0),
            diffusion: self.diffusion.cleared(),
            left: self.left.cleared(),
            right: self.right.cleared(),
            node_l: of(0),
            node_r: of(0),
            phase: of(0),
        }
    }
}

/// One channel's tap drawn towards the middle: at no width both channels get the
/// same, at full width the taps stand as they are.
pub open spec fn widened(own: Single, other_left: Single, other_right: Single, width: Single) -> Single {
    let centre = other_left.sum(other_right).product(of(0x3F00_0000));
    centre.sum(own.difference(centre).product(width))
}

/// Dry and wet at a mix.
pub open spec fn blended(dry: Single, wet: Single, mix: Single) -> Single {
    dry.sum(wet.difference(dry).product(mix))
}

/// The decay of a room of a given size. It stays short of one: at one the tank is a
/// perfect loop and the tail never ends.
pub open spec fn decay_of(size: Single) -> Single {
    of(0x3E4C_CCCD).sum(size.clamped(of(0), of(0x3F80_0000)).product(of(0x3F40_0000)))
}

fn decay_for(size: Single) -> (x: Single)
    ensures
        x == decay_of(size),
{
    of(0x3E4C_CCCD).plus(size.clamp(of(0), of(0x3F80_0000)).times(of(0x3F40_0000)))
}

/// Dattorro's plate.
#[derive(Debug)]
pub struct PlateReverb {
    pub sample_rate: Single,
    pub predelay: DelayLine,
    pub bandwidth_state: Single,
    pub diffuser: Diffuser,
    pub half_l: Half,
    pub half_r: Half,
    pub node_l: Single,
    pub node_r: Single,
    pub mod_phase: Single,
    pub mod_increment: Single,
    pub excursion: Single,
    pub taps_left: Offsets,
    pub taps_right: Offsets,
    pub mix: Smoothed,
    pub decay: Smoothed,
    pub damping: Smoothed,
    pub predelay_samples: Smoothed,
    pub width: Smoothed,
    /// Whether the reverb is off, and its tank already cleared.
    pub bypassed: bool,
}

impl View for PlateReverb {
    type V = Plate;

    open spec fn view(&self) -> Plate {
        Plate {
            predelay: self.predelay@,
            bandwidth: self.bandwidth_state,
            diffusion: self.diffuser@,
            left: self.half_l@,
            right: self.half_r@,
            node_l: self.node_l,
            node_r: self.node_r,
            phase: self.mod_phase,
        }
    }
}

/// The offsets of the left channel and of the right, for the design's own rate.
pub open spec fn design_offsets(left: bool) -> Seq<int> {
    if left {
        seq![266, 2974, 1913, 1996, 1990, 187, 1066]
    } else {
        seq![353, 3627, 1228, 2673, 2111, 335, 121]
    }
}

/// Whether a channel's offsets are the design's, at another sample rate.
pub open spec fn placed(o: Seq<usize>, left: bool, ratio: Single) -> bool {
    forall|i: int| 0 <= i < 7 ==> #[trigger] o[i] == scaled_length(design_offsets(left)[i], ratio)
}

fn offsets_of(left: bool, ratio: Single) -> (o: Offsets)
    ensures
        placed(o@, left, ratio),
{
    let at: [u64; 7] = if left {
        [266, 2974, 1913, 1996, 1990, 187, 1066]
    } else {
        [353, 3627, 1228, 2673, 2111, 335, 121]
    };
    let o: Offsets = offsets(at, ratio);
    assert forall|i: int| 0 <= i < 7 implies #[trigger] o@[i] == scaled_length(
        design_offsets(left)[i],
        ratio,
    ) by {
        assert(at@[i] == design_offsets(left)[i]);
    }
    o
}

/// The seven offsets of a channel at another sample rate.
fn offsets(at: [u64; 7], ratio: Single) -> (o: Offsets)
    ensures
        forall|i: int| 0 <= i < 7 ==> #[trigger] o@[i] == scaled_length(at@[i] as int, ratio),
{
    [
        scaled(at[0], ratio),
        scaled(at[1], ratio),
        scaled(at[2], ratio),
        scaled(at[3], ratio),
        scaled(at[4], ratio),
        scaled(at[5], ratio),
        scaled(at[6], ratio),
    ]
}

impl PlateReverb {
    pub open spec fn wf(self) -> bool {
        self.predelay.wf() && self.diffuser.wf() && self.half_l.wf() && self.half_r.wf()
    }

    /// Whether the parts that are fixed when the reverb is built are the same.
    pub open spec fn same_room(self, other: PlateReverb) -> bool {
        &&& self.sample_rate == other.sample_rate
        &&& self.mod_increment == other.mod_increment
        &&& self.excursion == other.excursion
        &&& self.taps_left == other.taps_left
        &&& self.taps_right == other.taps_right
    }

    /// Whether the controls are where they were.
    pub open spec fn same_controls(self, other: PlateReverb) -> bool {
        &&& self.mix == other.mix
        &&& self.decay == other.decay
        &&& self.damping == other.damping
        &&& self.predelay_samples == other.predelay_samples
        &&& self.width == other.width
    }

    /// The pre-delay that a setting asks for, in samples: held to the line.
    pub open spec fn wanted_predelay(self, p: Params) -> Single {
        p.reverb_predelay.product(self.sample_rate).clamped(
            of(0),
            Single::nearest_to(self.predelay@.len() - 1),
        )
    }

    /// Whether the controls aim at a patch.
    pub open spec fn aimed(self, old: PlateReverb, p: Params) -> bool {
        &&& self.mix == (Smoothed { target: p.reverb_mix, ..old.mix })
        &&& self.decay == (Smoothed { target: decay_of(p.reverb_size), ..old.decay })
        &&& self.damping == (Smoothed { target: p.reverb_damping, ..old.damping })
        &&& self.predelay_samples == (Smoothed {
            target: old.wanted_predelay(p),
            ..old.predelay_samples
        })
        &&& self.width == (Smoothed { target: p.reverb_width, ..old.width })
    }

    /// Whether the controls are one step closer to a patch.
    pub open spec fn stepped(self, old: PlateReverb, p: Params) -> bool {
        &&& self.mix == (Smoothed { target: p.reverb_mix, ..old.mix }).advanced()
        &&& self.decay == (Smoothed {
            target: decay_of(p.reverb_size),
            ..old.decay
        }).advanced()
        &&& self.damping == (Smoothed { target: p.reverb_damping, ..old.damping }).advanced()
        &&& self.predelay_samples == (Smoothed {
            target: old.wanted_predelay(p),
            ..old.predelay_samples
        }).advanced()
        &&& self.width == (Smoothed { target: p.reverb_width, ..old.width }).advanced()
    }

    /// What stays the same over a chunk, with the controls where they are.
    pub open spec fn setting(self) -> Setting {
        Setting {
            predelay: self.predelay_samples.value,
            tail: tail_of(self.decay.value, self.damping.value),
            excursion: self.excursion,
            increment: self.mod_increment,
        }
    }

    /// Whether the reverb is off: nothing wanted, and nothing left of it.
    pub open spec fn off(self, p: Params) -> bool {
        p.reverb_mix.magnitude() == 0 && self.mix.value.magnitude() == 0
    }

    /// What a plate gives on the left for a dry sample.
    pub open spec fn left_of(self, plate: Plate, dry: Single) -> Single {
        let l = drawn(plate.right, plate.left, self.taps_left@);
        let r = drawn(plate.left, plate.right, self.taps_right@);
        blended(dry, widened(l, l, r, self.width.value), self.mix.value)
    }

    /// What a plate gives on the right for a dry sample.
    pub open spec fn right_of(self, plate: Plate, dry: Single) -> Single {
        let l = drawn(plate.right, plate.left, self.taps_left@);
        let r = drawn(plate.left, plate.right, self.taps_right@);
        blended(dry, widened(r, l, r, self.width.value), self.mix.value)
    }

    /// Whether the controls rest at the default patch.
    pub open spec fn at_default(self, rate: Single, glide: Single, slow_glide: Single) -> bool {
        &&& self.mix == (Smoothed { value: of(0), target: of(0), coef: glide })
        &&& self.decay.value == decay_of(of(0x3F00_0000))
        &&& self.decay == (Smoothed {
            value: self.decay.value,
            target: self.decay.value,
            coef: glide,
        })
        &&& self.damping == (Smoothed {
            value: of(0x3F00_0000),
            target: of(0x3F00_0000),
            coef: glide,
        })
        &&& self.predelay_samples.value == of(0x3CA3_D70A).product(rate)
        &&& self.predelay_samples == (Smoothed {
            value: self.predelay_samples.value,
            target: self.predelay_samples.value,
            coef: slow_glide,
        })
        &&& self.width == (Smoothed {
            value: of(0x3F80_0000),
            target: of(0x3F80_0000),
            coef: glide,
        })
        &&& !self.bypassed
    }

    /// Whether it is built for a sample rate: every line as long as that rate asks for.
    pub open spec fn built(self, rate: Single) -> bool {
        let ratio = rate.quotient(of(0x46E8_8200));
        let reach = samples_up(of(0x4180_0000).product(ratio));
        &&& self.sample_rate == rate
        &&& self.excursion == of(0x4180_0000).product(ratio)
        &&& self.mod_increment == of(0x3F33_3333).quotient(rate)
        &&& line::reaches(self@.predelay.len(), samples_up(of(0x3E80_0000).product(rate)))
        &&& self@.diffusion.fresh(ratio)
        &&& self@.left.fresh(672, 4453, 1800, 3720, ratio, reach)
        &&& self@.right.fresh(908, 4217, 2656, 3163, ratio, reach)
        &&& placed(self.taps_left@, true, ratio)
        &&& placed(self.taps_right@, false, ratio)
    }

    /// A fresh reverb: silent, with the controls at the default patch.
    pub open spec fn fresh<F: Fn(Curve, Single) -> Single>(self, f: F, sample_rate: Single) -> bool {
        let rate = usable_rate(sample_rate);
        &&& self.wf()
        &&& self.built(rate)
        &&& self@ == self@.cleared()
        &&& self.at_default(
            rate,
            glide(f, of(0x41C8_0000), sample_rate),
            glide(f, of(0x42F0_0000), sample_rate),
        )
    }

    /// A silent room. The pre-delay glides slower than the other controls, because a step
    /// of it is a click. Not for the callback: it allocates every line.
    pub fn new<F: Fn(Curve, Single) -> Single + Copy>(sample_rate: Single, f: F) -> (r: PlateReverb)
        requires
            curve::gives_curves(f),
        ensures
            r.fresh(f, sample_rate),
    {
        let quick: Single = glide_coef(of(0x41C8_0000), sample_rate, f);
        let slow: Single = glide_coef(of(0x42F0_0000), sample_rate, f);
        let rate: Single = if of(0).lt(sample_rate) {
            sample_rate
        } else {
            of(0x473B_8000)
        };
        let ratio: Single = rate.over(of(0x46E8_8200));
        let excursion: Single = of(0x4180_0000).times(ratio);
        let headroom: usize = ceil_samples(excursion);
        PlateReverb {
            sample_rate: rate,
            predelay: DelayLine::new(ceil_samples(of(0x3E80_0000).times(rate))),
            bandwidth_state: of(0),
            diffuser: Diffuser::new(ratio),
            half_l: Half::new(672, 4453, 1800, 3720, ratio, headroom),
            half_r: Half::new(908, 4217, 2656, 3163, ratio, headroom),
            node_l: of(0),
            node_r: of(0),
            mod_phase: of(0),
            mod_increment: of(0x3F33_3333).over(rate),
            excursion,
            taps_left: offsets_of(true, ratio),
            taps_right: offsets_of(false, ratio),
            mix: Smoothed::new(of(0), quick),
            decay: Smoothed::new(decay_for(of(0x3F00_0000)), quick),
            damping: Smoothed::new(of(0x3F00_0000), quick),
            predelay_samples: Smoothed::new(of(0x3CA3_D70A).times(rate), slow),
            width: Smoothed::new(of(0x3F80_0000), quick),
            bypassed: false,
        }
    }

    /// Empties everything that sounds. Also on the way into bypass: turning the mix
    /// back up must start clean, not surface a stale tail from minutes ago.
    fn clear_tank(&mut self)
        requires
            old(self).wf(),
        ensures
            final(self).wf(),
            final(self)@ == old(self)@.cleared(),
            final(self).same_room(*old(self)),
            final(self).same_controls(*old(self)),
            final(self).bypassed == old(self).bypassed,
    {
        self.predelay.clear();
        self.bandwidth_state = of(0);
        self.diffuser.clear();
        self.half_l.clear();
        self.half_r.clear();
        self.node_l = of(0);
        self.node_r = of(0);
        self.mod_phase = of(0);
    }

    fn set_targets(&mut self, p: &Params)
        requires
            old(self).wf(),
        ensures
            final(self).wf(),
            final(self)@ == old(self)@,
            final(self).same_room(*old(self)),
            final(self).aimed(*old(self), *p),
            final(self).bypassed == old(self).bypassed,
    {
        self.mix.set_target(p.reverb_mix);
        self.decay.set_target(decay_for(p.reverb_size));
        self.damping.set_target(p.reverb_damping);
        let last: usize = self.predelay.capacity() - 1;
        let top: Single = Single::from_whole(last as u64);
        self.predelay_samples.set_target(
            p.reverb_predelay.times(self.sample_rate).clamp(of(0), top),
        );
        self.width.set_target(p.reverb_width);
    }

    /// Whether the tank was emptied, and every control jumped to a patch.
    pub open spec fn snapped(self, old: PlateReverb, p: Params) -> bool {
        let decay = decay_of(p.reverb_size);
        let predelay = old.wanted_predelay(p);
        &&& self.wf()
        &&& self@ == old@.cleared()
        &&& self.same_room(old)
        &&& !self.bypassed
        &&& self.mix == (Smoothed { value: p.reverb_mix, target: p.reverb_mix, ..old.mix })
        &&& self.decay == (Smoothed { value: decay, target: decay, ..old.decay })
        &&& self.damping == (Smoothed {
            value: p.reverb_damping,
            target: p.reverb_damping,
            ..old.damping
        })
        &&& self.predelay_samples == (Smoothed {
            value: predelay,
            target: predelay,
            ..old.predelay_samples
        })
        &&& self.width == (Smoothed { value: p.reverb_width, target: p.reverb_width, ..old.width })
    }

    /// Empties the tank and jumps every control to a patch.
    pub fn snap(&mut self, p: &Params)
        requires
            old(self).wf(),
        ensures
            final(self).snapped(*old(self), *p),
    {
        self.clear_tank();
        self.bypassed = false;
        self.set_targets(p);
        self.mix.snap_to_target();
        self.decay.snap_to_target();
        self.damping.snap_to_target();
        self.predelay_samples.snap_to_target();
        self.width.snap_to_target();
    }

    /// The sines of the two wobbles over the next samples. The second half's runs at
    /// another rate, so that the two never line up.
    pub open spec fn swings<F: Fn(Curve, Single) -> Single>(self, f: F, count: nat) -> Seq<(Single, Single)> {
        Seq::new(
            count,
            |i: int|
                {
                    let x = angle(phase_after(self.mod_phase, self.mod_increment, i + 1));
                    (
                        curve::at(f, Curve::Sine, x),
                        curve::at(f, Curve::Sine, x.product(of(0x3FCF_1AA0))),
                    )
                },
        )
    }

    /// Whether a chunk went through, and came out as `out`: untouched while the reverb is
    /// off; else with the controls one step on, and every sample blended with the plate.
    /// What one channel has beyond the other is left alone.
    #[verifier::opaque]
    pub open spec fn passed(
        self,
        old: PlateReverb,
        dry: (Seq<Single>, Seq<Single>),
        out: (Seq<Single>, Seq<Single>),
        p: Params,
        sines: Seq<(Single, Single)>,
    ) -> bool {
        &&& self.same_room(old)
        &&& old.off(p) ==> {
            &&& out == dry
            &&& self.bypassed
            &&& self.same_controls(old)
            &&& self@ == (if old.bypassed {
                old@
            } else {
                old@.cleared()
            })
        }
        &&& !old.off(p) ==> {
            let s = self.setting();
            let n = line::frames(dry);
            &&& !self.bypassed
            &&& self.stepped(old, p)
            &&& self@ == old@.after_all(dry.0, dry.1, sines, s, n as int)
            &&& out.0.len() == dry.0.len()
            &&& out.1.len() == dry.1.len()
            &&& forall|i: int|
                0 <= i < dry.0.len() ==> #[trigger] out.0[i] == (if i < n {
                    self.left_of(old@.after_all(dry.0, dry.1, sines, s, i + 1), dry.0[i])
                } else {
                    dry.0[i]
                })
            &&& forall|i: int|
                0 <= i < dry.1.len() ==> #[trigger] out.1[i] == (if i < n {
                    self.right_of(old@.after_all(dry.0, dry.1, sines, s, i + 1), dry.1[i])
                } else {
                    dry.1[i]
                })
        }
    }

    /// Processes a chunk in place, moving the controls once.
    ///
    /// Fully off, it skips the work rather than multiplying by zero: that is what
    /// makes a dry patch identical to the bit.
    pub fn process_chunk<F: Fn(Curve, Single) -> Single + Copy>(
        &mut self,
        left: &mut Vec<Single>,
        right: &mut Vec<Single>,
        p: &Params,
        f: F,
    )
        requires
            old(self).wf(),
            curve::gives_curves(f),
        ensures
            final(self).wf(),
            final(left)@.len() == old(left)@.len(),
            final(right)@.len() == old(right)@.len(),
            final(self).passed(
                *old(self),
                (old(left)@, old(right)@),
                (final(left)@, final(right)@),
                *p,
                old(self).swings(f, line::frames((old(left)@, old(right)@))),
            ),
    {
        let count: usize = if left.len() < right.len() {
            left.len()
        } else {
            right.len()
        };
        self.process_span(left, right, 0, count, p, f);
        proof {
            let (dry, out) = ((old(left)@, old(right)@), (left@, right@));
            let sines = old(self).swings(f, count as nat);
            lemma_the_rest_is_left_alone(*old(self), *self, dry, out, *p, sines);
        }
    }

    /// Processes a stretch of two channels as a chunk.
    pub fn process_span<F: Fn(Curve, Single) -> Single + Copy>(
        &mut self,
        left: &mut Vec<Single>,
        right: &mut Vec<Single>,
        from: usize,
        count: usize,
        p: &Params,
        f: F,
    )
        requires
            old(self).wf(),
            from + count <= old(left)@.len(),
            from + count <= old(right)@.len(),
            curve::gives_curves(f),
        ensures
            final(self).wf(),
            line::kept_outside(
                (old(left)@, old(right)@),
                (final(left)@, final(right)@),
                from as int,
                count as int,
            ),
            final(self).passed(
                *old(self),
                line::span((old(left)@, old(right)@), from as int, count as int),
                line::span((final(left)@, final(right)@), from as int, count as int),
                *p,
                old(self).swings(f, count as nat),
            ),
    {
        proof {
            reveal(PlateReverb::passed);
        }
        if p.reverb_mix.is_zero() && self.mix.value().is_zero() {
            if !self.bypassed {
                self.clear_tank();
                self.bypassed = true;
            }
            return;
        }
        self.bypassed = false;
        self.set_targets(p);
        let mix: Single = self.mix.next();
        let decay: Single = self.decay.next();
        let damping: Single = self.damping.next();
        let predelay: Single = self.predelay_samples.next();
        let width: Single = self.width.next();
        let tail: Tail = Tail {
            decay,
            keep: damping.times(of(0x3F73_3333)),
            diffusion: decay.plus(of(0x3E19_999A)).clamp(of(0x3E80_0000), of(0x3F00_0000)),
        };
        let half: Single = of(0x3F00_0000);
        let ghost set = *self;
        let ghost s = self.setting();
        let ghost (dl, dr) = line::span((left@, right@), from as int, count as int);
        let size: usize = left.len();
        let ghost sines = old(self).swings(f, count as nat);
        let mut phase: Single = self.mod_phase;
        let mut i: usize = 0;
        while i < count
            invariant
                curve::gives_curves(f),
                self.wf(),
                set.wf(),
                half == of(0x3F00_0000),
                self.same_room(set),
                set.same_room(*old(self)),
                self.same_controls(set),
                !self.bypassed,
                s == set.setting(),
                tail == s.tail,
                predelay == s.predelay,
                mix == set.mix.value,
                width == set.width.value,
                i <= count,
                from + count <= size,
                size == left@.len() == old(left)@.len(),
                from + count <= right@.len() == old(right)@.len(),
                (dl, dr) == line::span((old(left)@, old(right)@), from as int, count as int),
                sines == old(self).swings(f, count as nat),
                phase == phase_after(old(self).mod_phase, old(self).mod_increment, i as int),
                self@ == set@.after_all(dl, dr, sines, s, i as int),
                forall|k: int|
                    0 <= k < left@.len() && !(from <= k < from + i) ==> #[trigger] left@[k]
                        == old(left)@[k],
                forall|k: int|
                    0 <= k < right@.len() && !(from <= k < from + i) ==> #[trigger] right@[k]
                        == old(right)@[k],
                forall|k: int|
                    from <= k < from + i ==> #[trigger] left@[k] == set.left_of(
                        set@.after_all(dl, dr, sines, s, k - from + 1),
                        dl[k - from],
                    ),
                forall|k: int|
                    from <= k < from + i ==> #[trigger] right@[k] == set.right_of(
                        set@.after_all(dl, dr, sines, s, k - from + 1),
                        dr[k - from],
                    ),
            decreases count - i,
        {
            let j: usize = from + i;
            let dry_left: Single = left[j];
            let dry_right: Single = right[j];
            phase = phase.plus(self.mod_increment);
            if of(0x3F80_0000).le(phase) {
                phase = phase.minus(of(0x3F80_0000));
            }
            let angle: Single = phase.times(of(0x40C9_0FDB));
            let sine_l: Single = read(f, Curve::Sine, angle);
            let sine_r: Single = read(f, Curve::Sine, angle.times(of(0x3FCF_1AA0)));
            assert((sine_l, sine_r) == sines[i as int]);
            assert(dl[i as int] == dry_left && dr[i as int] == dry_right);
            self.advance(dry_left, dry_right, sine_l, sine_r, predelay, tail);
            let tap_left: Single = draw(&self.half_r, &self.half_l, &self.taps_left);
            let tap_right: Single = draw(&self.half_l, &self.half_r, &self.taps_right);
            let centre: Single = tap_left.plus(tap_right).times(half);
            let wet_left: Single = centre.plus(tap_left.minus(centre).times(width));
            let wet_right: Single = centre.plus(tap_right.minus(centre).times(width));
            left.set(j, dry_left.plus(wet_left.minus(dry_left).times(mix)));
            right.set(j, dry_right.plus(wet_right.minus(dry_right).times(mix)));
            i = i + 1;
        }
    }

    /// One sample through the plate.
    fn advance(
        &mut self,
        dry_left: Single,
        dry_right: Single,
        sine_l: Single,
        sine_r: Single,
        predelay: Single,
        tail: Tail,
    )
        requires
            old(self).wf(),
        ensures
            final(self).wf(),
            final(self).same_room(*old(self)),
            final(self).same_controls(*old(self)),
            final(self).bypassed == old(self).bypassed,
            final(self)@ == old(self)@.after(
                (dry_left, dry_right),
                (sine_l, sine_r),
                (Setting {
                    predelay,
                    tail,
                    excursion: old(self).excursion,
                    increment: old(self).mod_increment,
                }),
            ),
    {
        proof {
            reveal(Plate::after);
        }
        self.predelay.write(dry_left.plus(dry_right).times(of(0x3F00_0000)));
        let delayed: Single = self.predelay.read_frac(predelay);
        self.bandwidth_state = self.bandwidth_state.plus(
            of(0x3F7F_DF3B).times(delayed.minus(self.bandwidth_state)),
        );
        let x: Single = self.diffuser.process(self.bandwidth_state);
        // Both halves hear the previous sample of the other, so the order they are
        // computed in cannot matter.
        let feed_l: Single = self.node_l;
        let feed_r: Single = self.node_r;
        self.mod_phase = self.mod_phase.plus(self.mod_increment);
        if of(0x3F80_0000).le(self.mod_phase) {
            self.mod_phase = self.mod_phase.minus(of(0x3F80_0000));
        }
        let out_l: Single = self.half_l.process(x.plus(feed_r), sine_l.times(self.excursion), tail);
        let out_r: Single = self.half_r.process(x.plus(feed_l), sine_r.times(self.excursion), tail);
        self.node_l = out_l.times(tail.decay);
        self.node_r = out_r.times(tail.decay);
    }
}

/// What a plate does with the first samples does not depend on the later ones.
proof fn lemma_only_the_first_samples(
    x: Plate,
    one: (Seq<Single>, Seq<Single>),
    other: (Seq<Single>, Seq<Single>),
    sines: Seq<(Single, Single)>,
    s: Setting,
    n: int,
)
    requires
        forall|k: int| 0 <= k < n ==> #[trigger] one.0[k] == other.0[k],
        forall|k: int| 0 <= k < n ==> #[trigger] one.1[k] == other.1[k],
    ensures
        x.after_all(one.0, one.1, sines, s, n) == x.after_all(other.0, other.1, sines, s, n),
    decreases n,
{
    if n > 0 {
        lemma_only_the_first_samples(x, one, other, sines, s, n - 1);
        assert(one.0[n - 1] == other.0[n - 1] && one.1[n - 1] == other.1[n - 1]);
    }
}

/// A chunk of the frames that both channels have is a chunk of the channels, with the rest
/// left alone.
proof fn lemma_the_rest_is_left_alone(
    before: PlateReverb,
    after: PlateReverb,
    dry: (Seq<Single>, Seq<Single>),
    out: (Seq<Single>, Seq<Single>),
    p: Params,
    sines: Seq<(Single, Single)>,
)
    requires
        ({
            let n = line::frames(dry) as int;
            &&& line::kept_outside(dry, out, 0, n)
            &&& after.passed(before, line::span(dry, 0, n), line::span(out, 0, n), p, sines)
        }),
    ensures
        after.passed(before, dry, out, p, sines),
{
    reveal(PlateReverb::passed);
    let n = line::frames(dry) as int;
    let (first, heard) = (line::span(dry, 0, n), line::span(out, 0, n));
    if before.off(p) {
        assert forall|k: int| 0 <= k < dry.0.len() implies out.0[k] == dry.0[k] by {
            if k < n {
                assert(heard.0[k] == first.0[k]);
            }
        }
        assert forall|k: int| 0 <= k < dry.1.len() implies out.1[k] == dry.1[k] by {
            if k < n {
                assert(heard.1[k] == first.1[k]);
            }
        }
        assert(out.0 =~= dry.0 && out.1 =~= dry.1);
    } else {
        let s = after.setting();
        lemma_only_the_first_samples(before@, dry, first, sines, s, n);
        assert forall|k: int| 0 <= k < dry.0.len() implies #[trigger] out.0[k] == (if k < n {
            after.left_of(before@.after_all(dry.0, dry.1, sines, s, k + 1), dry.0[k])
        } else {
            dry.0[k]
        }) by {
            if k < n {
                lemma_only_the_first_samples(before@, dry, first, sines, s, k + 1);
                assert(heard.0[k] == out.0[k] && first.0[k] == dry.0[k]);
            }
        }
        assert forall|k: int| 0 <= k < dry.1.len() implies #[trigger] out.1[k] == (if k < n {
            after.right_of(before@.after_all(dry.0, dry.1, sines, s, k + 1), dry.1[k])
        } else {
            dry.1[k]
        }) by {
            if k < n {
                lemma_only_the_first_samples(before@, dry, first, sines, s, k + 1);
                assert(heard.1[k] == out.1[k] && first.1[k] == dry.1[k]);
            }
        }
    }
}

/// At no width the tail is mono: both channels get the same wet signal. Only the
/// sign of a zero may differ.
pub proof fn law_zero_width_collapses_the_tail_to_mono(l: Single, r: Single, width: Single)
    requires
        width.magnitude() == 0,
        l.sum(r).product(of(0x3F00_0000)).finite(),
        l.difference(l.sum(r).product(of(0x3F00_0000))).finite(),
        r.difference(l.sum(r).product(of(0x3F00_0000))).finite(),
    ensures
        widened(l, l, r, width).key() == widened(r, l, r, width).key(),
{
    let centre = l.sum(r).product(of(0x3F00_0000));
    bounds::lemma_product_with_zero(l.difference(centre), width);
    bounds::lemma_product_with_zero(r.difference(centre), width);
    bounds::lemma_sum_with_zero(centre, l.difference(centre).product(width));
    bounds::lemma_sum_with_zero(centre, r.difference(centre).product(width));
}

/// At no mix the dry signal comes through as it is. Only the sign of a zero may
/// differ.
pub proof fn law_zero_mix_is_dry(dry: Single, wet: Single, mix: Single)
    requires
        mix.magnitude() == 0,
        dry.finite(),
        wet.difference(dry).finite(),
    ensures
        blended(dry, wet, mix).key() == dry.key(),
{
    bounds::lemma_product_with_zero(wet.difference(dry), mix);
    bounds::lemma_sum_with_zero(dry, wet.difference(dry).product(mix));
}

/// Clearing leaves nothing behind: whatever place a cleared line is read at, it is
/// silent.
pub proof fn law_a_cleared_tank_is_silent(plate: Plate, offset: int)
    requires
        plate.predelay.len() > 0,
        plate.left.delay2.line.len() > 0,
        plate.right.delay2.line.len() > 0,
        0 <= offset,
    ensures
        line::ago(plate.cleared().predelay, offset) == of(0),
        line::ago(plate.cleared().left.delay2.line, offset) == of(0),
        line::ago(plate.cleared().right.delay2.line, offset) == of(0),
        plate.cleared().cleared() == plate.cleared(),
{
}

/// The tail always dies: no size gives a decay of one.
pub proof fn law_the_tail_never_freezes(size: Single)
    requires
        !size.nan(),
    ensures
        decay_of(size).at_most(of(0x3F73_3334)),
        decay_of(size).below(of(0x3F80_0000)),
        of(0x3E4C_CCCD).at_most(decay_of(size)),
{
    let (zero, one) = (of(0), of(0x3F80_0000));
    let (least, part, most) = (of(0x3E4C_CCCD), of(0x3F40_0000), of(0x3F73_3334));
    let s = size.clamped(zero, one);
    bounds::lemma_unit();
    bounds::lemma_in_unit(s);
    bounds::lemma_decays();
    assert(bounds::in_unit(part));
    bounds::lemma_unit_product(s, part);
    let p = s.product(part);
    bounds::lemma_in_unit(p);
    bounds::lemma_sum_bounds(least, p, most);
    bounds::lemma_sum_bounds(least, p, least);
}

impl Tap {
    /// Whether it holds nothing but zeros.
    pub open spec fn hushed(self) -> bool {
        self.length >= 1 && line::hushed(self.line)
    }
}

impl Diffusion {
    pub open spec fn hushed(self) -> bool {
        self.a.hushed() && self.b.hushed() && self.c.hushed() && self.d.hushed()
    }
}

impl Side {
    pub open spec fn hushed(self) -> bool {
        &&& self.ap1.hushed()
        &&& self.delay1.hushed()
        &&& self.ap2.hushed()
        &&& self.delay2.hushed()
        &&& self.damp.magnitude() == 0
    }
}

impl Plate {
    /// Whether nothing is left in it.
    #[verifier::opaque]
    pub open spec fn hushed(self) -> bool {
        &&& line::hushed(self.predelay)
        &&& self.bandwidth.magnitude() == 0
        &&& self.diffusion.hushed()
        &&& self.left.hushed()
        &&& self.right.hushed()
        &&& self.node_l.magnitude() == 0
        &&& self.node_r.magnitude() == 0
    }
}

impl Tail {
    /// Whether its parts are numbers.
    pub open spec fn steady(self) -> bool {
        &&& self.decay.finite()
        &&& self.diffusion.finite()
        &&& of(0x3F80_0000).difference(self.keep).finite()
    }
}

/// An all-pass that is fed silence, and read silence, stores and gives silence.
proof fn lemma_silence_is_diffused(input: Single, c: Single, delayed: Single)
    requires
        input.magnitude() == 0,
        delayed.magnitude() == 0,
        c.finite(),
    ensures
        stored(input, c, delayed).magnitude() == 0,
        diffused(input, c, delayed).magnitude() == 0,
{
    bounds::lemma_product_with_zero(c, delayed);
    bounds::lemma_nothing_and_nothing(input, c.product(delayed));
    let s = stored(input, c, delayed);
    bounds::lemma_product_with_zero(c, s);
    bounds::lemma_nothing_and_nothing(delayed, c.product(s));
}

proof fn lemma_a_hushed_tap(t: Tap, value: Single, excursion: Single)
    requires
        t.hushed(),
        value.magnitude() == 0,
    ensures
        t.fed(value).hushed(),
        t.fed(value).end().magnitude() == 0,
        t.end().magnitude() == 0,
        t.near_end(excursion).magnitude() == 0,
{
    let d = Single::nearest_to(t.length - 1).sum(excursion);
    line::law_a_hushed_line_stays_silent(t.line, value, t.length - 1, d);
    line::law_a_hushed_line_stays_silent(t.fed(value).line, value, t.length - 1, d);
}

proof fn lemma_hushed_diffusers(x: Diffusion, input: Single)
    requires
        x.hushed(),
        input.magnitude() == 0,
    ensures
        x.after(input).hushed(),
        x.out(input).magnitude() == 0,
{
    let (c, d) = (of(0x3F40_0000), of(0x3F20_0000));
    lemma_a_hushed_tap(x.a, input, input);
    lemma_silence_is_diffused(input, c, x.a.end());
    lemma_a_hushed_tap(x.a, stored(input, c, x.a.end()), input);
    let i = x.after_a(input);
    lemma_a_hushed_tap(x.b, input, input);
    lemma_silence_is_diffused(i, c, x.b.end());
    lemma_a_hushed_tap(x.b, stored(i, c, x.b.end()), input);
    let j = x.after_b(input);
    lemma_a_hushed_tap(x.c, input, input);
    lemma_silence_is_diffused(j, d, x.c.end());
    lemma_a_hushed_tap(x.c, stored(j, d, x.c.end()), input);
    let k = x.after_c(input);
    lemma_a_hushed_tap(x.d, input, input);
    lemma_silence_is_diffused(k, d, x.d.end());
    lemma_a_hushed_tap(x.d, stored(k, d, x.d.end()), input);
}

proof fn lemma_a_hushed_side(x: Side, input: Single, excursion: Single, t: Tail)
    requires
        x.hushed(),
        input.magnitude() == 0,
        t.steady(),
    ensures
        x.after(input, excursion, t).hushed(),
        x.after(input, excursion, t).delay2.end().magnitude() == 0,
{
    let c = of(0x3F33_3333);
    lemma_a_hushed_tap(x.ap1, input, excursion);
    let read1 = x.ap1.near_end(excursion);
    lemma_silence_is_diffused(input, c, read1);
    lemma_a_hushed_tap(x.ap1, stored(input, c, read1), excursion);
    lemma_a_hushed_tap(x.delay1, diffused(input, c, read1), excursion);
    let delay1 = x.delay1.fed(diffused(input, c, read1));
    bounds::lemma_nothing_and_nothing(delay1.end(), x.damp);
    let pull = delay1.end().difference(x.damp);
    bounds::lemma_product_with_zero(of(0x3F80_0000).difference(t.keep), pull);
    bounds::lemma_nothing_and_nothing(
        x.damp,
        of(0x3F80_0000).difference(t.keep).product(pull),
    );
    let damp = x.damp.sum(of(0x3F80_0000).difference(t.keep).product(pull));
    bounds::lemma_product_with_zero(t.decay, damp);
    let into2 = damp.product(t.decay);
    lemma_a_hushed_tap(x.ap2, input, excursion);
    let read2 = x.ap2.end();
    lemma_silence_is_diffused(into2, t.diffusion, read2);
    lemma_a_hushed_tap(x.ap2, stored(into2, t.diffusion, read2), excursion);
    lemma_a_hushed_tap(x.delay2, diffused(into2, t.diffusion, read2), excursion);
}

/// An empty plate that hears silence stays empty.
proof fn lemma_a_hushed_plate(
    x: Plate,
    dry: (Single, Single),
    sines: (Single, Single),
    s: Setting,
)
    requires
        x.hushed(),
        dry.0.magnitude() == 0,
        dry.1.magnitude() == 0,
        s.tail.steady(),
    ensures
        x.after(dry, sines, s).hushed(),
{
    reveal(Plate::after);
    reveal(Plate::hushed);
    bounds::lemma_nothing_and_nothing(dry.0, dry.1);
    bounds::lemma_product_with_zero(of(0x3F00_0000), dry.0.sum(dry.1));
    let value = dry.0.sum(dry.1).product(of(0x3F00_0000));
    line::law_a_hushed_line_stays_silent(x.predelay, value, 0, s.predelay);
    line::law_a_hushed_line_stays_silent(x.held(dry), value, 0, s.predelay);
    let heard = line::between(x.held(dry), s.predelay);
    bounds::lemma_nothing_and_nothing(heard, x.bandwidth);
    bounds::lemma_product_with_zero(of(0x3F7F_DF3B), heard.difference(x.bandwidth));
    bounds::lemma_nothing_and_nothing(
        x.bandwidth,
        of(0x3F7F_DF3B).product(heard.difference(x.bandwidth)),
    );
    let low = x.narrowed(dry, s);
    lemma_hushed_diffusers(x.diffusion, low);
    let y = x.diffusion.out(low);
    bounds::lemma_nothing_and_nothing(y, x.node_r);
    bounds::lemma_nothing_and_nothing(y, x.node_l);
    let (l, r) = (sines.0.product(s.excursion), sines.1.product(s.excursion));
    lemma_a_hushed_side(x.left, y.sum(x.node_r), l, s.tail);
    lemma_a_hushed_side(x.right, y.sum(x.node_l), r, s.tail);
    let left = x.left.after(y.sum(x.node_r), l, s.tail);
    let right = x.right.after(y.sum(x.node_l), r, s.tail);
    bounds::lemma_product_with_zero(s.tail.decay, left.delay2.end());
    bounds::lemma_product_with_zero(s.tail.decay, right.delay2.end());
}

proof fn lemma_a_hushed_chunk(
    x: Plate,
    left: Seq<Single>,
    right: Seq<Single>,
    sines: Seq<(Single, Single)>,
    s: Setting,
    n: int,
)
    requires
        x.hushed(),
        silence((left, right)),
        n <= left.len(),
        n <= right.len(),
        s.tail.steady(),
    ensures
        x.after_all(left, right, sines, s, n).hushed(),
    decreases n,
{
    if n > 0 {
        lemma_a_hushed_chunk(x, left, right, sines, s, n - 1);
        let dry = (left, right);
        assert(dry.0[n - 1].magnitude() == 0 && dry.1[n - 1].magnitude() == 0);
        lemma_a_hushed_plate(
            x.after_all(left, right, sines, s, n - 1),
            (left[n - 1], right[n - 1]),
            sines[n - 1],
            s,
        );
    }
}

/// Nothing is drawn from an empty tank.
proof fn lemma_nothing_is_drawn(across: Side, own: Side, at: Seq<usize>)
    requires
        across.hushed(),
        own.hushed(),
    ensures
        drawn(across, own, at).magnitude() == 0,
{
    let z = of(0);
    line::law_a_hushed_line_stays_silent(across.delay1.line, z, at[0] as int, z);
    line::law_a_hushed_line_stays_silent(across.delay1.line, z, at[1] as int, z);
    line::law_a_hushed_line_stays_silent(across.ap2.line, z, at[2] as int, z);
    line::law_a_hushed_line_stays_silent(across.delay2.line, z, at[3] as int, z);
    line::law_a_hushed_line_stays_silent(own.delay1.line, z, at[4] as int, z);
    line::law_a_hushed_line_stays_silent(own.ap2.line, z, at[5] as int, z);
    line::law_a_hushed_line_stays_silent(own.delay2.line, z, at[6] as int, z);
    let (a, b, c, d) = (
        line::ago(across.delay1.line, at[0] as int),
        line::ago(across.delay1.line, at[1] as int),
        line::ago(across.ap2.line, at[2] as int),
        line::ago(across.delay2.line, at[3] as int),
    );
    let (e, f, g) = (
        line::ago(own.delay1.line, at[4] as int),
        line::ago(own.ap2.line, at[5] as int),
        line::ago(own.delay2.line, at[6] as int),
    );
    bounds::lemma_nothing_and_nothing(a, b);
    bounds::lemma_nothing_and_nothing(a.sum(b), c);
    bounds::lemma_nothing_and_nothing(a.sum(b).difference(c), d);
    let x = a.sum(b).difference(c).sum(d);
    bounds::lemma_nothing_and_nothing(x, e);
    bounds::lemma_nothing_and_nothing(x.difference(e), f);
    bounds::lemma_nothing_and_nothing(x.difference(e).difference(f), g);
    bounds::lemma_product_with_zero(
        of(0x3F19_999A),
        x.difference(e).difference(f).difference(g),
    );
}

/// Nothing comes out of an empty plate that hears silence.
proof fn lemma_nothing_comes_out(r: PlateReverb, x: Plate, dry: Single)
    requires
        x.hushed(),
        dry.magnitude() == 0,
        r.width.value.finite(),
        r.mix.value.finite(),
    ensures
        r.left_of(x, dry).magnitude() == 0,
        r.right_of(x, dry).magnitude() == 0,
{
    reveal(Plate::hushed);
    lemma_nothing_is_drawn(x.right, x.left, r.taps_left@);
    lemma_nothing_is_drawn(x.left, x.right, r.taps_right@);
    let a = drawn(x.right, x.left, r.taps_left@);
    let b = drawn(x.left, x.right, r.taps_right@);
    let centre = a.sum(b).product(of(0x3F00_0000));
    bounds::lemma_nothing_and_nothing(a, b);
    bounds::lemma_product_with_zero(of(0x3F00_0000), a.sum(b));
    lemma_nothing_is_spread(a, centre, r.width.value);
    lemma_nothing_is_spread(b, centre, r.width.value);
    lemma_nothing_is_spread(widened(a, a, b, r.width.value), dry, r.mix.value);
    lemma_nothing_is_spread(widened(b, a, b, r.width.value), dry, r.mix.value);
}

proof fn lemma_nothing_is_spread(x: Single, from: Single, amount: Single)
    requires
        x.magnitude() == 0,
        from.magnitude() == 0,
        amount.finite(),
    ensures
        from.sum(x.difference(from).product(amount)).magnitude() == 0,
{
    bounds::lemma_nothing_and_nothing(x, from);
    bounds::lemma_product_with_zero(amount, x.difference(from));
    bounds::lemma_nothing_and_nothing(from, x.difference(from).product(amount));
}

/// Whether two channels hold nothing but zeros.
pub open spec fn silence(x: (Seq<Single>, Seq<Single>)) -> bool {
    &&& forall|i: int| 0 <= i < x.0.len() ==> (#[trigger] x.0[i]).magnitude() == 0
    &&& forall|i: int| 0 <= i < x.1.len() ==> (#[trigger] x.1[i]).magnitude() == 0
}

impl PlateReverb {
    /// Whether it is fit for use: while it is bypassed, nothing is left in it.
    pub open spec fn kept(self) -> bool {
        self.wf() && (self.bypassed ==> self@.hushed())
    }

    /// Whether its controls are numbers.
    pub open spec fn steady(self) -> bool {
        &&& self.mix.value.finite()
        &&& self.width.value.finite()
        &&& self.setting().tail.steady()
    }
}

impl PlateReverb {
    /// Whether its controls lie where a patch can put them, and glide.
    pub open spec fn ranged(self) -> bool {
        &&& bounds::in_unit(self.mix.value) && bounds::in_unit(self.mix.coef)
        &&& bounds::in_unit(self.width.value) && bounds::in_unit(self.width.coef)
        &&& bounds::in_unit(self.damping.value) && bounds::in_unit(self.damping.coef)
        &&& bounds::in_unit(self.decay.value) && bounds::in_unit(self.decay.coef)
    }
}

/// A setting that a patch holds between zero and one lies there.
proof fn lemma_unit_setting(x: Single)
    requires
        params::within(x, of(0), of(0x3F80_0000)),
    ensures
        bounds::in_unit(x),
{
    reveal(params::within);
}

/// What a patch in range asks of the controls is in range.
proof fn lemma_targets_in_range(p: Params)
    requires
        p.in_range(),
    ensures
        bounds::in_unit(p.reverb_mix),
        bounds::in_unit(p.reverb_width),
        bounds::in_unit(p.reverb_damping),
        bounds::in_unit(decay_of(p.reverb_size)),
{
    lemma_unit_setting(p.reverb_mix);
    lemma_unit_setting(p.reverb_width);
    lemma_unit_setting(p.reverb_damping);
    lemma_unit_setting(p.reverb_size);
    law_the_tail_never_freezes(p.reverb_size);
}

/// Controls in range are numbers, and so is all that shapes the tail.
pub proof fn law_controls_in_range_are_steady(r: PlateReverb)
    requires
        r.ranged(),
    ensures
        r.steady(),
{
    let (part, fifteenth) = (of(0x3F73_3333), of(0x3E19_999A));
    bounds::lemma_unit();
    bounds::lemma_in_unit(r.mix.value);
    bounds::lemma_in_unit(r.width.value);
    bounds::lemma_in_unit(r.decay.value);
    bounds::lemma_unit_product(r.damping.value, part);
    let keep = r.damping.value.product(part);
    bounds::lemma_unit_rest(keep);
    bounds::lemma_in_unit(of(0x3F80_0000).difference(keep));
    bounds::lemma_sum_is_nearest(r.decay.value, fifteenth);
}

/// A reverb whose controls rest at the default patch, as those of a fresh one do, has them
/// in range.
pub proof fn law_the_default_patch_is_in_range(
    r: PlateReverb,
    rate: Single,
    glide: Single,
    slow_glide: Single,
)
    requires
        r.wf(),
        bounds::in_unit(glide),
        r.at_default(rate, glide, slow_glide),
    ensures
        r.kept(),
        r.ranged(),
{
    law_the_tail_never_freezes(of(0x3F00_0000));
    let d = r.decay;
    assert(bounds::in_unit(d.value) && d.coef == glide);
}

/// A reverb that has jumped to a patch in range has its controls in range.
pub proof fn law_a_jump_ends_in_range(old: PlateReverb, r: PlateReverb, p: Params)
    requires
        old.ranged(),
        p.in_range(),
        r.snapped(old, p),
    ensures
        r.kept(),
        r.ranged(),
{
    lemma_targets_in_range(p);
}

/// On patches in range the controls stay in range, chunk after chunk.
pub proof fn law_controls_stay_in_range(before: PlateReverb, after: PlateReverb, c: Pass)
    requires
        before.ranged(),
        went(before, after, c),
        c.p.in_range(),
    ensures
        after.ranged(),
{
    reveal(PlateReverb::passed);
    lemma_targets_in_range(c.p);
    if !before.off(c.p) {
        smooth::law_a_control_stays_in_range(
            Smoothed { target: c.p.reverb_mix, ..before.mix },
        );
        smooth::law_a_control_stays_in_range(
            Smoothed { target: c.p.reverb_width, ..before.width },
        );
        smooth::law_a_control_stays_in_range(
            Smoothed { target: c.p.reverb_damping, ..before.damping },
        );
        smooth::law_a_control_stays_in_range(
            Smoothed { target: decay_of(c.p.reverb_size), ..before.decay },
        );
    }
}

/// One chunk through a reverb: what went in and came out, on which patch.
pub struct Pass {
    pub dry: (Seq<Single>, Seq<Single>),
    pub out: (Seq<Single>, Seq<Single>),
    pub p: Params,
    pub sines: Seq<(Single, Single)>,
}

/// Whether a chunk took a reverb from one state to the next.
pub open spec fn went(before: PlateReverb, after: PlateReverb, c: Pass) -> bool {
    &&& after.passed(before, c.dry, c.out, c.p, c.sines)
    &&& after.wf()
}

/// A cleared plate holds nothing.
proof fn lemma_cleared_is_hushed(r: PlateReverb)
    requires
        r.wf(),
    ensures
        r@.cleared().hushed(),
{
    reveal(Plate::hushed);
    lemma_line_sizes(r.predelay);
    lemma_line_sizes(r.diffuser.a.line);
    lemma_line_sizes(r.diffuser.b.line);
    lemma_line_sizes(r.diffuser.c.line);
    lemma_line_sizes(r.diffuser.d.line);
    lemma_line_sizes(r.half_l.ap1.line);
    lemma_line_sizes(r.half_l.delay1.line);
    lemma_line_sizes(r.half_l.ap2.line);
    lemma_line_sizes(r.half_l.delay2.line);
    lemma_line_sizes(r.half_r.ap1.line);
    lemma_line_sizes(r.half_r.delay1.line);
    lemma_line_sizes(r.half_r.ap2.line);
    lemma_line_sizes(r.half_r.delay2.line);
}

proof fn lemma_line_sizes(l: line::DelayLine)
    requires
        l.wf(),
    ensures
        0 < l@.len() <= 0x8000_0000,
        line::hushed(line::silent(l@.len())),
{
    vstd::arithmetic::power2::lemma_pow2_pos(l.bits as nat);
}

/// However a reverb is played, nothing is left in it while it is bypassed; and a chunk at
/// no mix comes out untouched and leaves nothing in it.
pub proof fn law_no_mix_empties_the_tank(before: PlateReverb, after: PlateReverb, c: Pass)
    requires
        before.kept(),
        went(before, after, c),
    ensures
        after.kept(),
        before.off(c.p) ==> c.out == c.dry && after@.hushed(),
{
    reveal(PlateReverb::passed);
    lemma_cleared_is_hushed(before);
}

/// An empty reverb that hears silence gives silence, and stays empty.
pub proof fn law_silence_comes_out_of_an_empty_tank(
    before: PlateReverb,
    after: PlateReverb,
    c: Pass,
)
    requires
        before.wf(),
        before@.hushed(),
        went(before, after, c),
        silence(c.dry),
        after.steady(),
    ensures
        silence(c.out),
        after@.hushed(),
{
    reveal(PlateReverb::passed);
    lemma_cleared_is_hushed(before);
    if !before.off(c.p) {
        let s = after.setting();
        let (left, right) = c.dry;
        let n = line::frames(c.dry) as int;
        lemma_a_hushed_chunk(before@, left, right, c.sines, s, n);
        assert forall|i: int| 0 <= i < left.len() implies (#[trigger] c.out.0[i]).magnitude()
            == 0 by {
            if i < n {
                lemma_a_hushed_chunk(before@, left, right, c.sines, s, i + 1);
                lemma_nothing_comes_out(
                    after,
                    before@.after_all(left, right, c.sines, s, i + 1),
                    left[i],
                );
            }
        }
        assert forall|i: int| 0 <= i < right.len() implies (#[trigger] c.out.1[i]).magnitude()
            == 0 by {
            if i < n {
                lemma_a_hushed_chunk(before@, left, right, c.sines, s, i + 1);
                lemma_nothing_comes_out(
                    after,
                    before@.after_all(left, right, c.sines, s, i + 1),
                    right[i],
                );
            }
        }
    }
}

/// Turning the mix up again surfaces no stale tail: after a chunk at no mix, silence gives
/// nothing but silence, for as many chunks as it lasts and on any patch in range.
pub proof fn law_no_stale_tail(states: Seq<PlateReverb>, chunks: Seq<Pass>, n: int)
    requires
        states.len() == chunks.len() + 1,
        1 <= n <= chunks.len(),
        states[0].kept(),
        states[0].ranged(),
        states[0].off(chunks[0].p),
        forall|i: int|
            0 <= i < chunks.len() ==> went(states[i], states[i + 1], #[trigger] chunks[i])
                && chunks[i].p.in_range(),
        forall|i: int| 1 <= i < chunks.len() ==> silence((#[trigger] chunks[i]).dry),
    ensures
        states[n].wf(),
        states[n].ranged(),
        states[n]@.hushed(),
        forall|i: int| 1 <= i < n ==> silence((#[trigger] chunks[i]).out),
    decreases n,
{
    let c = chunks[n - 1];
    assert(went(states[n - 1], states[n], c));
    if n == 1 {
        law_no_mix_empties_the_tank(states[0], states[1], c);
        law_controls_stay_in_range(states[0], states[1], c);
    } else {
        law_no_stale_tail(states, chunks, n - 1);
        law_controls_stay_in_range(states[n - 1], states[n], c);
        law_controls_in_range_are_steady(states[n]);
        law_silence_comes_out_of_an_empty_tank(states[n - 1], states[n], c);
    }
}

/// The coefficients of a new reverb's controls lie between zero and one, whatever the
/// sample rate.
proof fn lemma_glides_in_range<F: Fn(Curve, Single) -> Single>(f: F, sample_rate: Single)
    requires
        curve::decays(f),
    ensures
        bounds::in_unit(glide(f, of(0x41C8_0000), sample_rate)),
        bounds::in_unit(glide(f, of(0x42F0_0000), sample_rate)),
{
    let rate = usable_rate(sample_rate);
    let per_chunk = Single::nearest_to(BLOCK as int);
    let control_rate = rate.quotient(per_chunk);
    bounds::lemma_unit();
    bounds::lemma_effect_time(of(0x41C8_0000));
    bounds::lemma_effect_time(of(0x42F0_0000));
    bounds::lemma_whole_positive(BLOCK as int);
    if rate.finite() {
        single::law_order_is_numeric(of(0), rate);
        bounds::lemma_quotient_bounds(rate, per_chunk, of(0));
        assert(0 * per_chunk.units() == 0);
    } else {
        reveal(Single::quotient);
    }
    smooth::law_a_coefficient_is_in_range(f, of(0x41C8_0000), control_rate);
    smooth::law_a_coefficient_is_in_range(f, of(0x42F0_0000), control_rate);
}

/// A new reverb is fit for use: nothing is in it, and its controls are in range.
pub proof fn law_a_new_reverb_is_in_range<F: Fn(Curve, Single) -> Single>(
    f: F,
    sample_rate: Single,
    r: PlateReverb,
)
    requires
        curve::decays(f),
        r.fresh(f, sample_rate),
    ensures
        r.kept(),
        r.ranged(),
        r@.hushed(),
{
    lemma_cleared_is_hushed(r);
    lemma_glides_in_range(f, sample_rate);
    law_the_default_patch_is_in_range(
        r,
        usable_rate(sample_rate),
        glide(f, of(0x41C8_0000), sample_rate),
        glide(f, of(0x42F0_0000), sample_rate),
    );
}

/// A new reverb that jumps to a patch at no mix gives back the first chunk as it was, bit
/// for bit, whatever it held; and from then on silence gives nothing but silence, for as
/// many chunks as it lasts and however far the patches, all in range, turn the mix up.
pub proof fn law_a_new_reverb_has_no_stale_tail<F: Fn(Curve, Single) -> Single>(
    f: F,
    sample_rate: Single,
    new: PlateReverb,
    states: Seq<PlateReverb>,
    chunks: Seq<Pass>,
)
    requires
        curve::decays(f),
        new.fresh(f, sample_rate),
        chunks.len() >= 1,
        states.len() == chunks.len() + 1,
        states[0].snapped(new, chunks[0].p),
        chunks[0].p.reverb_mix.magnitude() == 0,
        forall|i: int|
            0 <= i < chunks.len() ==> went(states[i], states[i + 1], #[trigger] chunks[i])
                && chunks[i].p.in_range(),
        forall|i: int| 1 <= i < chunks.len() ==> silence((#[trigger] chunks[i]).dry),
    ensures
        chunks[0].out == chunks[0].dry,
        forall|i: int| 1 <= i < chunks.len() ==> silence((#[trigger] chunks[i]).out),
{
    let c = chunks[0];
    assert(went(states[0], states[1], c));
    law_a_new_reverb_is_in_range(f, sample_rate, new);
    law_a_jump_ends_in_range(new, states[0], c.p);
    law_no_mix_empties_the_tank(states[0], states[1], c);
    law_no_stale_tail(states, chunks, chunks.len() as int);
}

impl Plate {
    /// Whether every line in it is silent, and remembers what is fed to it until it comes
    /// out at the end.
    pub open spec fn ready(self) -> bool {
        let (d, l, r) = (self.diffusion, self.left, self.right);
        &&& d.a.ready() && d.b.ready() && d.c.ready() && d.d.ready()
        &&& l.ap1.ready() && l.delay1.ready() && l.ap2.ready() && l.delay2.ready()
        &&& r.ap1.ready() && r.delay1.ready() && r.ap2.ready() && r.delay2.ready()
    }
}

/// A line built for a sample rate is ready.
proof fn lemma_a_scaled_line(t: Tap, length: int, ratio: Single, headroom: int)
    requires
        t.scaled(length, ratio, headroom),
        headroom >= 0,
    ensures
        t.ready(),
{
}

/// A half built for a sample rate is ready.
proof fn lemma_a_fresh_half(
    x: Side,
    ap1: int,
    delay1: int,
    ap2: int,
    delay2: int,
    ratio: Single,
    headroom: int,
)
    requires
        x.fresh(ap1, delay1, ap2, delay2, ratio, headroom),
        headroom >= 0,
    ensures
        x.ap1.ready() && x.delay1.ready() && x.ap2.ready() && x.delay2.ready(),
{
    lemma_a_scaled_line(x.ap1, ap1, ratio, headroom);
    lemma_a_scaled_line(x.delay1, delay1, ratio, 0);
    lemma_a_scaled_line(x.ap2, ap2, ratio, 0);
    lemma_a_scaled_line(x.delay2, delay2, ratio, 0);
}

/// Every line of a new reverb is silent, and remembers what is fed to it until it comes out
/// at the end.
pub proof fn law_the_lines_of_a_new_reverb_are_ready<F: Fn(Curve, Single) -> Single>(
    f: F,
    sample_rate: Single,
    r: PlateReverb,
)
    requires
        r.fresh(f, sample_rate),
    ensures
        r@.ready(),
{
    let ratio = usable_rate(sample_rate).quotient(of(0x46E8_8200));
    let headroom = samples_up(of(0x4180_0000).product(ratio));
    single::lemma_truncated(of(0x4180_0000).product(ratio));
    let d = r@.diffusion;
    lemma_a_scaled_line(d.a, 142, ratio, 0);
    lemma_a_scaled_line(d.b, 107, ratio, 0);
    lemma_a_scaled_line(d.c, 379, ratio, 0);
    lemma_a_scaled_line(d.d, 277, ratio, 0);
    lemma_a_fresh_half(r@.left, 672, 4453, 1800, 3720, ratio, headroom);
    lemma_a_fresh_half(r@.right, 908, 4217, 2656, 3163, ratio, headroom);
}

/// A line that was silent gives back at its end what was fed to it, flushed, as many
/// samples later as it is long, and silence until then.
pub proof fn law_a_line_gives_back_what_it_is_fed(t: Tap, values: Seq<Single>)
    requires
        t.ready(),
    ensures
        (Tap { line: line::written(t.line, values), ..t }).end() == (if values.len()
            < t.length {
            of(0)
        } else {
            line::flushed(values[values.len() - t.length])
        }),
{
    line::law_a_line_remembers(t.line, values, t.length - 1);
}

} // verus!
