//! Control events and the queue that carries them to the audio thread.
//!
//! Parameters are *state*: the audio side only needs the latest value. Events
//! are *things that happened*, and dropping one loses a note, so they need a
//! queue that can be drained without locking: a ring with one producer and one
//! consumer, each of which only ever moves its own counter.

use crate::drums::pattern::Cell;
use crate::sequencer::Step;
use crate::single::Single;
use vstd::arithmetic::div_mod::*;
use vstd::arithmetic::power2::*;
use vstd::prelude::*;

verus! {

/// Something that happened, to be applied at the next audio block.
#[derive(Debug, Clone, Copy, PartialEq, Eq, Structural)]
#[allow(inconsistent_fields)]
pub enum Event {
    /// Velocity is `0.0..=1.0`. A note-on with zero velocity is *not* treated
    /// as a note-off here; the MIDI layer normalises that before it gets in.
    NoteOn { note: u8, velocity: Single },
    NoteOff { note: u8 },
    /// Releases everything gracefully, respecting release times.
    AllNotesOff,
    /// Cuts everything dead. For when something has gone wrong and a stuck note
    /// is screaming.
    Panic,
    /// Pitch bend in semitones.
    PitchBend(Single),
    /// Mod wheel, `0.0..=1.0`.
    ModWheel(Single),
    /// One MIDI clock tick. 24 of these per quarter note.
    ClockTick,
    /// Transport start: rewind to step zero and play.
    ClockStart,
    ClockStop,
    /// Transport continue: play from where it stopped.
    ClockContinue,
    /// Overwrites one step of the pattern.
    SetStep { index: u8, step: Step },
    /// Throws away the current pattern and generates a new one.
    Regenerate,
    /// Overwrites one step of the bass pattern.
    SetBassStep { index: u8, step: Step },
    /// Writes a fresh bass line from the current bass settings.
    RegenerateBass,
    /// Sets one cell of the drum grid.
    SetDrumCell { step: u8, pad: u8, cell: Cell },
}

/// How far a wrapping counter is ahead of another.
pub open spec fn ahead(head: u64, tail: u64) -> int {
    (head - tail) % 0x1_0000_0000_0000_0000
}

/// The arithmetic of the ring: which slot each side may touch, given the two
/// counters. The producer owns `head`, the consumer owns `tail`, and both only
/// ever go up, wrapping round when the word overflows.
#[derive(Debug, Clone, Copy, PartialEq, Eq, Structural)]
pub struct Ring {
    /// The capacity is two to this power, so the wrap is a mask, not a modulo.
    pub bits: u32,
    /// The capacity less one.
    pub mask: u64,
}

impl Ring {
    pub open spec fn wf(self) -> bool {
        &&& 1 <= self.bits <= 31
        &&& self.mask == pow2(self.bits as nat) - 1
    }

    /// How many slots there are. One is always left empty, so that a full ring
    /// is distinguishable from an empty one without a separate counter.
    pub open spec fn capacity(self) -> int {
        self.mask + 1
    }

    /// A ring of at least `capacity` slots: the next power of two, and two at
    /// the least.
    pub fn new(capacity: usize) -> (r: Ring)
        requires
            capacity <= 0x8000_0000,
        ensures
            r.wf(),
            r.capacity() >= capacity,
            r.capacity() >= 2,
            r.capacity() > 2 ==> r.capacity() < 2 * capacity,
    {
        let mut bits: u32 = 1;
        let mut slots: u64 = 2;
        proof {
            lemma2_to64();
        }
        while slots < capacity as u64
            invariant
                1 <= bits <= 31,
                slots == pow2(bits as nat),
                capacity <= 0x8000_0000,
                slots > 2 ==> slots < 2 * capacity,
            decreases 0x8000_0000 - slots,
        {
            proof {
                lemma2_to64();
                lemma_pow2_unfold((bits + 1) as nat);
                if bits == 31 {
                    assert(false);
                }
            }
            slots = slots * 2;
            bits = bits + 1;
        }
        Ring { bits, mask: slots - 1 }
    }

    /// The slot that a counter points at.
    pub open spec fn slot(self, counter: int) -> int {
        counter % self.capacity()
    }

    fn slot_of(self, counter: u64) -> (s: usize)
        requires
            self.wf(),
        ensures
            s == self.slot(counter as int),
            s < self.capacity(),
    {
        proof {
            let n = self.bits as nat;
            lemma2_to64();
            if n < 31 {
                lemma_pow2_strictly_increases(n, 31);
            }
            lemma_pow2_pos(n);
            vstd::bits::lemma_u64_low_bits_mask_is_mod(counter, n);
        }
        (counter & self.mask) as usize
    }

    /// Where the producer may write its next event, unless the ring is full.
    pub fn write_slot(self, head: u64, tail: u64) -> (s: Option<usize>)
        requires
            self.wf(),
        ensures
            s == (if ahead(head, tail) >= self.capacity() - 1 {
                None
            } else {
                Some(self.slot(head as int) as usize)
            }),
            s matches Some(i) ==> i < self.capacity() && i == self.slot(head as int),
    {
        if head.wrapping_sub(tail) >= self.mask {
            None
        } else {
            Some(self.slot_of(head))
        }
    }

    /// Where the consumer finds the oldest event, unless the ring is empty.
    pub fn read_slot(self, head: u64, tail: u64) -> (s: Option<usize>)
        requires
            self.wf(),
        ensures
            s == (if head == tail {
                None
            } else {
                Some(self.slot(tail as int) as usize)
            }),
            s matches Some(i) ==> i < self.capacity() && i == self.slot(tail as int),
    {
        if head == tail {
            None
        } else {
            Some(self.slot_of(tail))
        }
    }
}

/// A queue of events.
pub struct EventQueue {
    pub ring: Ring,
    pub buffer: Vec<Event>,
    /// Next slot to write.
    pub head: u64,
    /// Next slot to read.
    pub tail: u64,
}

impl View for EventQueue {
    type V = Seq<Event>;

    /// The waiting events, oldest first.
    open spec fn view(&self) -> Seq<Event> {
        Seq::new(
            ahead(self.head, self.tail) as nat,
            |i: int| self.buffer@[self.ring.slot(self.tail + i)],
        )
    }
}

impl EventQueue {
    pub open spec fn wf(self) -> bool {
        &&& self.ring.wf()
        &&& self.buffer@.len() == self.ring.capacity()
        &&& ahead(self.head, self.tail) < self.ring.capacity()
    }

    /// How many events fit.
    pub open spec fn room(self) -> int {
        self.ring.capacity() - 1
    }

    /// A queue with at least `capacity` slots.
    ///
    /// Size it for the worst case: a dense sequencer plus a two-handed keyboard
    /// part plus MIDI clock is still only a few hundred events per second, so
    /// 1024 is roomy.
    pub fn new(capacity: usize) -> (q: EventQueue)
        requires
            capacity <= 0x8000_0000,
        ensures
            q.wf(),
            q@ == Seq::<Event>::empty(),
            q.room() + 1 >= capacity,
            q.room() >= 1,
            q.room() > 1 ==> q.room() + 1 < 2 * capacity,
    {
        let ring: Ring = Ring::new(capacity);
        let slots: usize = ring.mask as usize + 1;
        let mut buffer: Vec<Event> = Vec::new();
        let mut i: usize = 0;
        while i < slots
            invariant
                i <= slots,
                buffer@.len() == i,
            decreases slots - i,
        {
            buffer.push(Event::Panic);
            i = i + 1;
        }
        EventQueue { ring, buffer, head: 0, tail: 0 }
    }

    /// Pushes an event. Returns `false` if the queue is full and the event was
    /// dropped.
    ///
    /// Dropping is the right failure mode here: blocking would stall the game
    /// thread, and growing would allocate.
    pub fn push(&mut self, event: Event) -> (sent: bool)
        requires
            old(self).wf(),
        ensures
            final(self).wf(),
            final(self).room() == old(self).room(),
            sent == (old(self)@.len() < old(self).room()),
            final(self)@ == (if sent {
                old(self)@.push(event)
            } else {
                old(self)@
            }),
    {
        match self.ring.write_slot(self.head, self.tail) {
            None => false,
            Some(slot) => {
                self.buffer.set(slot, event);
                self.head = self.head.wrapping_add(1);
                proof {
                    let cap = self.ring.capacity();
                    let h = old(self).head as int;
                    let t = old(self).tail as int;
                    let n = ahead(old(self).head, old(self).tail);
                    lemma_ring_divides(self.ring);
                    lemma_wrap(h, t, n, cap);
                    assert(ahead(self.head, self.tail) == n + 1);
                    assert forall|i: int| 0 <= i < n implies #[trigger] self.ring.slot(t + i)
                        != slot by {
                        lemma_slots_differ(t + i, t + n, cap);
                    }
                    assert(self@ =~= old(self)@.push(event));
                }
                true
            },
        }
    }

    /// Pops the oldest event, or `None` if the queue is empty.
    pub fn pop(&mut self) -> (e: Option<Event>)
        requires
            old(self).wf(),
        ensures
            final(self).wf(),
            final(self).room() == old(self).room(),
            e == (if old(self)@.len() == 0 {
                None
            } else {
                Some(old(self)@[0])
            }),
            final(self)@ == (if old(self)@.len() == 0 {
                old(self)@
            } else {
                old(self)@.drop_first()
            }),
    {
        match self.ring.read_slot(self.head, self.tail) {
            None => None,
            Some(slot) => {
                let event: Event = self.buffer[slot];
                self.tail = self.tail.wrapping_add(1);
                proof {
                    let cap = self.ring.capacity();
                    let t = old(self).tail as int;
                    lemma_ring_divides(self.ring);
                    assert forall|i: int| 0 <= i implies #[trigger] self.ring.slot(self.tail + i)
                        == self.ring.slot(t + 1 + i) by {
                        lemma_wrap_slot(self.tail as int, t + 1, i, cap);
                    }
                    assert(ahead(self.head, self.tail) == ahead(old(self).head, old(self).tail)
                        - 1);
                    assert(self@ =~= old(self)@.drop_first());
                }
                Some(event)
            },
        }
    }

    /// How many events are waiting.
    pub fn len(&self) -> (n: usize)
        requires
            self.wf(),
        ensures
            n == self@.len(),
    {
        proof {
            let n = self.ring.bits as nat;
            lemma2_to64();
            if n < 31 {
                lemma_pow2_strictly_increases(n, 31);
            }
        }
        self.head.wrapping_sub(self.tail) as usize
    }

    pub fn is_empty(&self) -> (yes: bool)
        requires
            self.wf(),
        ensures
            yes == (self@.len() == 0),
    {
        self.head == self.tail
    }
}

/// The counters wrap at a multiple of the capacity.
proof fn lemma_ring_divides(r: Ring)
    requires
        r.wf(),
    ensures
        r.capacity() >= 2,
        0x1_0000_0000_0000_0000int % r.capacity() == 0,
        r.capacity() <= 0x8000_0000,
{
    let n = r.bits as nat;
    lemma2_to64();
    lemma_pow2_adds(n, (64 - n) as nat);
    lemma_mod_multiples_basic(pow2((64 - n) as nat) as int, pow2(n) as int);
    if n < 31 {
        lemma_pow2_strictly_increases(n, 31);
    }
    if n > 1 {
        lemma_pow2_strictly_increases(1, n);
    }
    assert(pow2(n) * pow2((64 - n) as nat) == pow2((64 - n) as nat) * pow2(n)) by (nonlinear_arith);
}

/// A counter is where the other one plus the waiting events would be.
proof fn lemma_wrap(h: int, t: int, n: int, cap: int)
    requires
        cap > 0,
        0x1_0000_0000_0000_0000int % cap == 0,
        0 <= h < 0x1_0000_0000_0000_0000,
        0 <= t < 0x1_0000_0000_0000_0000,
        n == (h - t) % 0x1_0000_0000_0000_0000,
    ensures
        h % cap == (t + n) % cap,
{
    lemma_wrap_slot(h, t + n, 0, cap);
}

/// Counters that agree modulo the word agree on their slots.
proof fn lemma_wrap_slot(a: int, b: int, i: int, cap: int)
    requires
        cap > 0,
        0x1_0000_0000_0000_0000int % cap == 0,
        (a - b) % 0x1_0000_0000_0000_0000 == 0,
    ensures
        (a + i) % cap == (b + i) % cap,
{
    let w = 0x1_0000_0000_0000_0000int;
    let k = (a - b) / w;
    let c = w / cap;
    lemma_fundamental_div_mod(a - b, w);
    lemma_fundamental_div_mod(w, cap);
    assert(a + i == cap * (c * k) + (b + i)) by (nonlinear_arith)
        requires
            a - b == w * k,
            w == cap * c,
    ;
    lemma_mod_multiples_vanish(c * k, b + i, cap);
}

/// Positions less than a lap apart use different slots.
proof fn lemma_slots_differ(a: int, b: int, cap: int)
    requires
        cap > 0,
        a < b < a + cap,
    ensures
        a % cap != b % cap,
{
    lemma_fundamental_div_mod(a, cap);
    lemma_fundamental_div_mod(b, cap);
    if a % cap == b % cap {
        let d = b / cap - a / cap;
        assert(b - a == cap * d) by (nonlinear_arith)
            requires
                a == cap * (a / cap) + a % cap,
                b == cap * (b / cap) + b % cap,
                a % cap == b % cap,
                d == b / cap - a / cap,
        ;
        assert(d <= 0 || d >= 1);
        assert(false) by (nonlinear_arith)
            requires
                0 < cap * d < cap,
                cap > 0,
        ;
    }
}

} // verus!
