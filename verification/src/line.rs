//! A ring buffer for delayed reads.
//!
//! Both effects are ultimately made of these.

use crate::bounds;
use crate::params::of;
use crate::single;
use crate::single::Single;
use vstd::arithmetic::power2::*;
use vstd::prelude::*;

verus! {

/// A sample too small to matter set to zero.
///
/// Denormals cost up to a hundred times as much on some CPUs, and a recirculating
/// path produces them constantly on its way to zero, sometimes settling into one
/// that never gets there.
pub open spec fn flushed(x: Single) -> Single {
    if x.size().below(of(0x1E3C_E508)) {
        of(0)
    } else {
        x
    }
}

pub fn flush(x: Single) -> (y: Single)
    ensures
        y == flushed(x),
{
    if x.abs().lt(of(0x1E3C_E508)) {
        of(0)
    } else {
        x
    }
}

/// A delay line with integer and fractional reads.
///
/// The convention throughout: `read(0)` returns the sample most recently written,
/// `read(n)` the one `n` samples before it.
#[derive(Debug)]
pub struct DelayLine {
    pub buffer: Vec<Single>,
    /// The capacity, as a power of two.
    pub bits: u32,
    /// Where the *next* write goes.
    pub write: usize,
}

impl View for DelayLine {
    type V = Seq<Single>;

    /// What the line remembers, newest first.
    open spec fn view(&self) -> Seq<Single> {
        Seq::new(
            self.buffer@.len(),
            |d: int| self.buffer@[place(self.write as int, d, self.buffer@.len() as int)],
        )
    }
}

/// Where the sample written `d` samples before the newest lies: the newest sits
/// one behind the write cursor.
pub open spec fn place(write: int, d: int, capacity: int) -> int {
    if write - d - 1 >= 0 {
        write - d - 1
    } else {
        write - d - 1 + capacity
    }
}

/// Whether a line of so many samples, a power of two, is the shortest that serves reads up
/// to and including a delay.
pub open spec fn reaches(len: nat, max_delay: int) -> bool {
    &&& len > max_delay
    &&& len > 2 ==> len <= 2 * max_delay
}

/// The sample `delay` samples ago. Held, never wrapped: asking for more history than
/// the line holds gives the oldest sample rather than a recent one wearing a disguise.
pub open spec fn ago(line: Seq<Single>, delay: int) -> Single {
    line[if delay < line.len() {
        delay
    } else {
        line.len() - 1
    }]
}

/// How far back a fractional read goes: held to the line's history, and the newest
/// sample for a NaN.
pub open spec fn held_delay(line: Seq<Single>, delay: Single) -> Single {
    if delay.nan() {
        of(0)
    } else {
        delay.clamped(of(0), Single::nearest_to(line.len() - 1))
    }
}

/// The line at a fractional position, between its two neighbours.
pub open spec fn between(line: Seq<Single>, delay: Single) -> Single {
    let d = held_delay(line, delay);
    let index = d.truncated();
    let a = ago(line, index);
    let b = ago(line, index + 1);
    a.sum(b.difference(a).product(d.difference(Single::nearest_to(index))))
}

/// The line with one more sample: the oldest makes room.
pub open spec fn pushed(line: Seq<Single>, value: Single) -> Seq<Single> {
    seq![flushed(value)] + line.drop_last()
}

/// How many frames two channels both have.
pub open spec fn frames(x: (Seq<Single>, Seq<Single>)) -> nat {
    if x.0.len() < x.1.len() {
        x.0.len()
    } else {
        x.1.len()
    }
}

/// A stretch of two channels.
pub open spec fn span(x: (Seq<Single>, Seq<Single>), from: int, count: int) -> (
    Seq<Single>,
    Seq<Single>,
) {
    (x.0.subrange(from, from + count), x.1.subrange(from, from + count))
}

/// Whether two channels are as they were outside a stretch.
pub open spec fn kept_outside(
    old: (Seq<Single>, Seq<Single>),
    new: (Seq<Single>, Seq<Single>),
    from: int,
    count: int,
) -> bool {
    &&& new.0.len() == old.0.len()
    &&& new.1.len() == old.1.len()
    &&& forall|k: int|
        0 <= k < old.0.len() && !(from <= k < from + count) ==> #[trigger] new.0[k] == old.0[k]
    &&& forall|k: int|
        0 <= k < old.1.len() && !(from <= k < from + count) ==> #[trigger] new.1[k] == old.1[k]
}

/// A line of that many zeros.
pub open spec fn silent(len: nat) -> Seq<Single> {
    Seq::new(len, |i: int| of(0))
}

impl DelayLine {
    pub open spec fn wf(self) -> bool {
        &&& 1 <= self.bits <= 32
        &&& self.buffer@.len() == pow2(self.bits as nat)
        &&& self.buffer@.len() <= 0x8000_0000
        &&& self.write < self.buffer@.len()
    }

    /// Allocates a line that can serve reads up to and including `max_delay`. Not
    /// for the callback: call it from the setup path.
    pub fn new(max_delay: usize) -> (l: DelayLine)
        requires
            max_delay < 0x8000_0000,
        ensures
            l.wf(),
            reaches(l@.len(), max_delay as int),
            l@ == silent(l@.len()),
    {
        let mut bits: u32 = 1;
        let mut capacity: u64 = 2;
        proof {
            lemma2_to64();
        }
        while capacity <= max_delay as u64
            invariant
                1 <= bits <= 32,
                capacity == pow2(bits as nat),
                2 <= capacity <= 0x8000_0000,
                max_delay < 0x8000_0000,
                capacity > 2 ==> capacity <= 2 * max_delay,
            decreases 0x1_0000_0000 - capacity,
        {
            proof {
                lemma_pow2_unfold((bits + 1) as nat);
                if bits >= 31 {
                    lemma2_to64();
                    if bits > 31 {
                        lemma_pow2_strictly_increases(31, bits as nat);
                    }
                }
                if capacity > 0x4000_0000 {
                    lemma2_to64();
                    if bits <= 30 {
                        if bits < 30 {
                            lemma_pow2_strictly_increases(bits as nat, 30);
                        }
                    }
                }
            }
            bits = bits + 1;
            capacity = capacity * 2;
        }
        let mut buffer: Vec<Single> = Vec::new();
        let mut i: usize = 0;
        while i < capacity as usize
            invariant
                i <= capacity <= 0x8000_0000,
                buffer@.len() == i,
                forall|k: int| 0 <= k < i ==> #[trigger] buffer@[k] == of(0),
            decreases capacity - i,
        {
            buffer.push(of(0));
            i = i + 1;
        }
        let l: DelayLine = DelayLine { buffer, bits, write: 0 };
        assert(l@ =~= silent(l@.len()));
        l
    }

    pub fn capacity(&self) -> (n: usize)
        ensures
            n == self@.len(),
    {
        self.buffer.len()
    }

    /// Zeroes the line, so that stale audio from old settings does not leak out.
    pub fn clear(&mut self)
        requires
            old(self).wf(),
        ensures
            final(self).wf(),
            final(self)@ == silent(old(self)@.len()),
    {
        let mut i: usize = 0;
        while i < self.buffer.len()
            invariant
                self.wf(),
                self.bits == old(self).bits,
                i <= self.buffer@.len() == old(self).buffer@.len(),
                forall|k: int| 0 <= k < i ==> #[trigger] self.buffer@[k] == of(0),
            decreases self.buffer@.len() - i,
        {
            self.buffer.set(i, of(0));
            i = i + 1;
        }
        self.write = 0;
        assert(self@ =~= silent(old(self)@.len()));
    }

    /// Every delay line funnels through here, so flushing at this single point
    /// keeps denormals out of all of them.
    pub fn write(&mut self, value: Single)
        requires
            old(self).wf(),
        ensures
            final(self).wf(),
            final(self)@ == pushed(old(self)@, value),
    {
        let w: usize = self.write;
        self.buffer.set(w, flush(value));
        self.write = if w + 1 == self.buffer.len() {
            0
        } else {
            w + 1
        };
        assert(self@ =~= pushed(old(self)@, value));
    }

    /// Reads `delay` samples into the past.
    pub fn read(&self, delay: usize) -> (x: Single)
        requires
            self.wf(),
        ensures
            x == ago(self@, delay as int),
    {
        let capacity: usize = self.buffer.len();
        let d: usize = if delay < capacity {
            delay
        } else {
            capacity - 1
        };
        if self.write > d {
            self.buffer[self.write - d - 1]
        } else {
            self.buffer[capacity - (d + 1 - self.write)]
        }
    }

    /// Reads at a fractional position, interpolating linearly.
    ///
    /// Linear, not something higher order: its high-frequency loss is a mild
    /// darkening of the repeats, which is what a tape delay does anyway.
    pub fn read_frac(&self, delay: Single) -> (x: Single)
        requires
            self.wf(),
        ensures
            x == between(self@, delay),
    {
        let last: usize = self.buffer.len() - 1;
        let d: Single = if delay.is_nan() {
            of(0)
        } else {
            delay.clamp(of(0), Single::from_whole(last as u64))
        };
        let index: u64 = d.to_whole();
        let frac: Single = d.minus(Single::from_whole(index));
        let near: usize = if index > last as u64 {
            last
        } else {
            index as usize
        };
        let a: Single = self.read(near);
        let b: Single = self.read(near + 1);
        a.plus(b.minus(a).times(frac))
    }
}

/// A sample comes back as it went in, flushed, once as many have followed it as
/// it is read back by.
pub proof fn law_a_read_gives_back_the_write(line: Seq<Single>, value: Single, later: Seq<Single>)
    requires
        line.len() > later.len(),
    ensures
        written(pushed(line, value), later)[later.len() as int] == flushed(value),
{
    law_a_line_remembers(pushed(line, value), later, later.len() as int);
}

/// A line after a run of writes, the first of them the oldest.
pub open spec fn written(line: Seq<Single>, values: Seq<Single>) -> Seq<Single>
    decreases values.len(),
{
    if values.len() == 0 {
        line
    } else {
        pushed(written(line, values.drop_last()), values.last())
    }
}

/// What a line holds after a run of writes: the writes, flushed, the latest of them first,
/// and behind them what it held before.
pub proof fn law_a_line_remembers(line: Seq<Single>, values: Seq<Single>, delay: int)
    requires
        0 <= delay < line.len(),
    ensures
        written(line, values).len() == line.len(),
        written(line, values)[delay] == (if delay < values.len() {
            flushed(values[values.len() - 1 - delay])
        } else {
            line[delay - values.len()]
        }),
    decreases values.len(),
{
    if values.len() > 0 {
        let rest = values.drop_last();
        law_a_line_remembers(line, rest, 0);
        if delay > 0 {
            law_a_line_remembers(line, rest, delay - 1);
        }
    }
}

/// Two lines built for the same delay are equally long: each has the smallest power of
/// two above it that a line can have.
pub proof fn lemma_same_length(a: DelayLine, b: DelayLine, max_delay: int)
    requires
        a.wf(),
        b.wf(),
        reaches(a@.len(), max_delay),
        reaches(b@.len(), max_delay),
        max_delay >= 0,
    ensures
        a@.len() == b@.len(),
{
    if a.bits < b.bits {
        lemma_longer(a, b, max_delay);
    }
    if b.bits < a.bits {
        lemma_longer(b, a, max_delay);
    }
}

/// A line with more bits than it takes is longer than one built for that delay can be.
proof fn lemma_longer(a: DelayLine, b: DelayLine, max_delay: int)
    requires
        a.wf(),
        b.wf(),
        a.bits < b.bits,
        a@.len() > max_delay >= 0,
    ensures
        b@.len() > 2,
        b@.len() > 2 * max_delay,
{
    lemma2_to64();
    lemma_pow2_unfold((a.bits + 1) as nat);
    if a.bits + 1 < b.bits {
        lemma_pow2_strictly_increases((a.bits + 1) as nat, b.bits as nat);
    }
    if a.bits > 1 {
        lemma_pow2_strictly_increases(1, a.bits as nat);
    }
}

/// What a line stores is zero, not a number, or large enough to matter.
pub proof fn law_no_denormal_is_stored(x: Single)
    ensures
        flushed(x) == of(0) || x.nan() || of(0x1E3C_E508).at_most(flushed(x).size()),
{
}

/// Whether a line holds nothing but zeros.
pub open spec fn hushed(line: Seq<Single>) -> bool {
    &&& 0 < line.len() <= 0x8000_0000
    &&& forall|i: int| 0 <= i < line.len() ==> (#[trigger] line[i]).magnitude() == 0
}

/// A silent line that is fed silence gives silence wherever it is read, between two
/// samples too, and stays silent.
pub proof fn law_a_hushed_line_stays_silent(line: Seq<Single>, value: Single, delay: int, frac: Single)
    requires
        hushed(line),
        value.magnitude() == 0,
        0 <= delay,
    ensures
        hushed(pushed(line, value)),
        ago(line, delay).magnitude() == 0,
        between(line, frac).magnitude() == 0,
{
    assert(flushed(value).magnitude() == 0);
    let fed = pushed(line, value);
    assert forall|i: int| 0 <= i < fed.len() implies (#[trigger] fed[i]).magnitude() == 0 by {
        if i > 0 {
            assert(fed[i] == line[i - 1]);
        }
    }
    let d = held_delay(line, frac);
    let top = Single::nearest_to(line.len() - 1);
    bounds::lemma_whole_finite(line.len() - 1);
    bounds::lemma_unit();
    let index = d.truncated();
    assert(d.finite() && 0 <= d.key());
    single::lemma_truncated(d);
    let n = Single::nearest_to(index);
    bounds::lemma_whole_finite(index);
    bounds::lemma_opposite(n);
    single::law_order_is_numeric(of(0), d);
    bounds::lemma_sum_bounds(d, n.opposite(), d);
    bounds::lemma_sum_bounds(d, n.opposite(), n.opposite());
    let (a, b) = (ago(line, index), ago(line, index + 1));
    bounds::lemma_nothing_and_nothing(b, a);
    bounds::lemma_product_with_zero(d.difference(n), b.difference(a));
    bounds::lemma_nothing_and_nothing(a, b.difference(a).product(d.difference(n)));
}

} // verus!
