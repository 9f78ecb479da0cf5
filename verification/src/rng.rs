//! A tiny deterministic random number generator.
//!
//! A reproducible seed is what makes a generated pattern recoverable: the same
//! seed always gives the same sequence. This is xorshift64*, which needs no
//! state beyond one word. It is emphatically not cryptographic.

use crate::bounds;
use crate::single;
use crate::single::Single;
use vstd::prelude::*;

verus! {

/// What a zero seed is replaced by.
pub const SPARE_SEED: u64 = 0x9E37_79B9_7F4A_7C15;

/// The multiplier that scrambles the state into an output.
pub const MULTIPLIER: u64 = 0x2545_F491_4F6C_DD1D;

/// The generator.
#[derive(Debug)]
pub struct Rng {
    state: u64,
}

impl Clone for Rng {
    fn clone(&self) -> (r: Rng)
        ensures
            r == *self,
    {
        Rng { state: self.state }
    }
}

/// One step of the xorshift register.
pub open spec fn shifted(x: u64) -> u64 {
    let a = x ^ (x >> 12);
    let b = a ^ (a << 25);
    b ^ (b >> 27)
}

/// The word handed out when the register has just reached `x`.
pub open spec fn scrambled(x: u64) -> u64 {
    x.wrapping_mul(MULTIPLIER)
}

/// The register only returns to zero from zero.
pub proof fn lemma_never_zero(x: u64)
    requires
        x != 0,
    ensures
        shifted(x) != 0,
{
    let a = x ^ (x >> 12);
    let b = a ^ (a << 25);
    assert(a != 0 && b != 0 && b ^ (b >> 27) != 0) by (bit_vector)
        requires
            x != 0,
            a == x ^ (x >> 12),
            b == a ^ (a << 25),
    ;
}

/// The pattern of the number in `[-1, 1)` made from 24 random bits.
pub open spec fn bipolar_bits(k: int) -> int {
    if k >= 0x0080_0000 {
        single::ratio_bits((k - 0x0080_0000) as nat, 0x0080_0000)
    } else {
        0x8000_0000 + single::ratio_bits((0x0080_0000 - k) as nat, 0x0080_0000)
    }
}

/// The number in `[0, 1)` made from a random word.
pub open spec fn unit_draw(word: u64) -> Single {
    Single { bits: single::ratio_bits((word >> 40) as nat, 0x0100_0000) as u32 }
}

/// The sum of a weight table, added up from its start.
pub open spec fn total(weights: Seq<Single>) -> Single
    decreases weights.len(),
{
    if weights.len() == 0 {
        Single { bits: 0 }
    } else {
        total(weights.drop_last()).sum(weights.last())
    }
}

/// The last of the first `n` indices that has a weight; the last of all if none has.
pub open spec fn last_weighted(weights: Seq<Single>, n: int) -> int
    decreases n,
{
    if n <= 0 {
        weights.len() - 1
    } else if weights[n - 1].magnitude() != 0 {
        n - 1
    } else {
        last_weighted(weights, n - 1)
    }
}

/// The first index with a weight, from `i` on, at which `pick` less the weights so far
/// is used up; the last one with a weight if none is.
pub open spec fn used_up(weights: Seq<Single>, pick: Single, i: int) -> int
    decreases weights.len() - i,
{
    if i >= weights.len() {
        last_weighted(weights, weights.len() as int)
    } else if weights[i].magnitude() == 0 {
        used_up(weights, pick, i + 1)
    } else if pick.difference(weights[i]).at_most(Single { bits: 0 }) {
        i
    } else {
        used_up(weights, pick.difference(weights[i]), i + 1)
    }
}

/// Whether a weight table can be drawn from: no weight negative, and some sum.
pub open spec fn drawable(weights: Seq<Single>) -> bool {
    &&& forall|i: int|
        0 <= i < weights.len() ==> (#[trigger] weights[i]).finite() && (Single {
            bits: 0,
        }).at_most(weights[i])
    &&& (Single { bits: 0 }).below(total(weights))
}

/// Weights that are all nothing add up to nothing.
proof fn lemma_no_weight(weights: Seq<Single>)
    requires
        forall|i: int| 0 <= i < weights.len() ==> (#[trigger] weights[i]).magnitude() == 0,
    ensures
        total(weights).magnitude() == 0,
    decreases weights.len(),
{
    if weights.len() > 0 {
        let rest = weights.drop_last();
        assert forall|i: int| 0 <= i < rest.len() implies (#[trigger] rest[i]).magnitude()
            == 0 by {
            assert(rest[i] == weights[i]);
        }
        lemma_no_weight(rest);
        bounds::lemma_sum_with_zero(total(rest), weights.last());
    }
}

proof fn lemma_last_weighted(weights: Seq<Single>, n: int)
    requires
        0 <= n <= weights.len(),
        weights.len() > 0,
    ensures
        0 <= last_weighted(weights, n) < weights.len(),
        (exists|i: int| 0 <= i < n && (#[trigger] weights[i]).magnitude() != 0)
            ==> weights[last_weighted(weights, n)].magnitude() != 0,
    decreases n,
{
    if n > 0 && weights[n - 1].magnitude() == 0 {
        lemma_last_weighted(weights, n - 1);
    }
}

/// Whatever is drawn, an index of the table is picked.
pub proof fn lemma_used_up(weights: Seq<Single>, pick: Single, i: int)
    requires
        0 <= i <= weights.len(),
        weights.len() > 0,
    ensures
        0 <= used_up(weights, pick, i) < weights.len(),
        (exists|k: int| 0 <= k < weights.len() && (#[trigger] weights[k]).magnitude() != 0)
            ==> weights[used_up(weights, pick, i)].magnitude() != 0,
    decreases weights.len() - i,
{
    if i >= weights.len() {
        lemma_last_weighted(weights, weights.len() as int);
    } else if weights[i].magnitude() == 0 {
        lemma_used_up(weights, pick, i + 1);
    } else {
        lemma_used_up(weights, pick.difference(weights[i]), i + 1);
    }
}

/// Only an index with a weight is ever picked, whatever the draw.
pub proof fn law_only_a_weight_is_picked(weights: Seq<Single>, pick: Single)
    requires
        drawable(weights),
    ensures
        0 <= used_up(weights, pick, 0) < weights.len(),
        (Single { bits: 0 }).below(weights[used_up(weights, pick, 0)]),
{
    if forall|i: int| 0 <= i < weights.len() ==> (#[trigger] weights[i]).magnitude() == 0 {
        lemma_no_weight(weights);
    }
    if weights.len() == 0 {
        lemma_no_weight(weights);
    }
    lemma_used_up(weights, pick, 0);
    let k = used_up(weights, pick, 0);
    assert(weights[k].magnitude() != 0);
    assert((Single { bits: 0 }).at_most(weights[k]));
}

impl Rng {
    /// The register.
    pub closed spec fn state(self) -> u64 {
        self.state
    }

    /// A zero register would stay zero for ever.
    pub open spec fn wf(self) -> bool {
        self.state() != 0
    }

    /// The register after the next draw.
    pub open spec fn next_state(self) -> u64 {
        shifted(self.state())
    }

    /// The generator after the next draw.
    pub closed spec fn stepped(self) -> Rng {
        Rng { state: shifted(self.state) }
    }

    /// The word of the next draw.
    pub open spec fn next_word(self) -> u64 {
        scrambled(self.next_state())
    }

    pub fn new(seed: u64) -> (r: Rng)
        ensures
            r.wf(),
            r.state() == (if seed == 0 {
                SPARE_SEED
            } else {
                seed
            }),
    {
        // A zero state is a fixed point for xorshift; nudge it off.
        Rng {
            state: if seed == 0 {
                SPARE_SEED
            } else {
                seed
            },
        }
    }

    pub fn next_u64(&mut self) -> (word: u64)
        requires
            old(self).wf(),
        ensures
            final(self).wf(),
            final(self).state() == old(self).next_state(),
            *final(self) == old(self).stepped(),
            word == old(self).next_word(),
    {
        proof {
            lemma_never_zero(self.state);
        }
        let mut x: u64 = self.state;
        x = x ^ (x >> 12);
        x = x ^ (x << 25);
        x = x ^ (x >> 27);
        self.state = x;
        x.wrapping_mul(MULTIPLIER)
    }

    /// Uniform in `[0, 1)`: the top 24 bits, which is exactly a mantissa.
    pub fn next_f32(&mut self) -> (x: Single)
        requires
            old(self).wf(),
        ensures
            final(self).wf(),
            final(self).state() == old(self).next_state(),
            *final(self) == old(self).stepped(),
            x == unit_draw(old(self).next_word()),
    {
        let w: u64 = self.next_u64();
        assert(w >> 40 < 0x0100_0000) by (bit_vector);
        Single::ratio((w >> 40) as u32, 0x0100_0000)
    }

    /// Uniform in `[-1, 1)`. Used for the noise oscillator.
    pub fn next_bipolar(&mut self) -> (x: Single)
        requires
            old(self).wf(),
        ensures
            final(self).wf(),
            final(self).state() == old(self).next_state(),
            *final(self) == old(self).stepped(),
            x.bits == bipolar_bits((old(self).next_word() >> 40) as int),
    {
        let w: u64 = self.next_u64();
        assert(w >> 40 < 0x0100_0000) by (bit_vector);
        let k: u32 = (w >> 40) as u32;
        if k >= 0x0080_0000 {
            Single::ratio(k - 0x0080_0000, 0x0080_0000)
        } else {
            let m: Single = Single::ratio(0x0080_0000 - k, 0x0080_0000);
            proof {
                single::lemma_ratio_at_most_one((0x0080_0000 - k) as nat, 0x0080_0000);
            }
            Single { bits: 0x8000_0000 + m.bits }
        }
    }

    /// Uniform integer in `[0, n)`. Returns 0, and draws nothing, when `n` is 0.
    pub fn below(&mut self, n: usize) -> (k: usize)
        requires
            old(self).wf(),
        ensures
            final(self).wf(),
            n == 0 ==> k == 0 && *final(self) == *old(self),
            n > 0 ==> final(self).state() == old(self).next_state() && k == old(self).next_word()
                as int % n as int,
            n > 0 ==> k < n,
    {
        if n == 0 {
            return 0;
        }
        (self.next_u64() % n as u64) as usize
    }

    /// Picks an index from a weight table, proportional to the weights: the
    /// first with a weight at which the draw is used up. Returns 0, and draws
    /// nothing, if the weights add up to nothing.
    pub fn weighted(&mut self, weights: &Vec<Single>) -> (k: usize)
        requires
            old(self).wf(),
        ensures
            final(self).wf(),
            total(weights@).at_most(Single { bits: 0 }) ==> k == 0 && *final(self) == *old(self),
            !total(weights@).at_most(Single { bits: 0 }) ==> final(self).state()
                == old(self).next_state() && k == used_up(
                weights@,
                unit_draw(old(self).next_word()).product(total(weights@)),
                0,
            ),
            weights@.len() > 0 ==> k < weights@.len(),
            drawable(weights@) ==> k < weights@.len() && (Single { bits: 0 }).below(
                weights@[k as int],
            ),
    {
        let mut sum: Single = Single { bits: 0 };
        let mut i: usize = 0;
        while i < weights.len()
            invariant
                i <= weights@.len(),
                sum == total(weights@.take(i as int)),
            decreases weights@.len() - i,
        {
            proof {
                let next = weights@.take(i + 1);
                assert(next.drop_last() =~= weights@.take(i as int));
                assert(next.last() == weights@[i as int]);
            }
            sum = sum.plus(weights[i]);
            i = i + 1;
        }
        assert(weights@.take(i as int) =~= weights@);
        if sum.le(Single { bits: 0 }) {
            return 0;
        }
        proof {
            if weights@.len() == 0 {
                lemma_no_weight(weights@);
            }
            let first = unit_draw(self.next_word()).product(total(weights@));
            lemma_used_up(weights@, first, 0);
            if drawable(weights@) {
                law_only_a_weight_is_picked(weights@, first);
            }
        }
        let mut pick: Single = self.next_f32().times(sum);
        let ghost start = pick;
        let mut j: usize = 0;
        while j < weights.len()
            invariant
                j <= weights@.len(),
                self.wf(),
                self.state() == old(self).next_state(),
                !total(weights@).at_most(Single { bits: 0 }),
                start == unit_draw(old(self).next_word()).product(total(weights@)),
                used_up(weights@, start, 0) == used_up(weights@, pick, j as int),
                weights@.len() > 0,
                0 <= used_up(weights@, start, 0) < weights@.len(),
                drawable(weights@) ==> (Single { bits: 0 }).below(
                    weights@[used_up(weights@, start, 0)],
                ),
            decreases weights@.len() - j,
        {
            if !weights[j].is_zero() {
                pick = pick.minus(weights[j]);
                if pick.le(Single { bits: 0 }) {
                    return j;
                }
            }
            j = j + 1;
        }
        while j > 0
            invariant
                j <= weights@.len(),
                self.wf(),
                self.state() == old(self).next_state(),
                !total(weights@).at_most(Single { bits: 0 }),
                start == unit_draw(old(self).next_word()).product(total(weights@)),
                weights@.len() > 0,
                0 <= used_up(weights@, start, 0) < weights@.len(),
                drawable(weights@) ==> (Single { bits: 0 }).below(
                    weights@[used_up(weights@, start, 0)],
                ),
                used_up(weights@, start, 0) == last_weighted(weights@, weights@.len() as int),
                last_weighted(weights@, weights@.len() as int) == last_weighted(
                    weights@,
                    j as int,
                ),
            decreases j,
        {
            if !weights[j - 1].is_zero() {
                return j - 1;
            }
            j = j - 1;
        }
        weights.len() - 1
    }

    /// Returns `true` with probability `p`.
    pub fn chance(&mut self, p: Single) -> (yes: bool)
        requires
            old(self).wf(),
        ensures
            final(self).wf(),
            final(self).state() == old(self).next_state(),
            yes == unit_draw(old(self).next_word()).below(p),
    {
        let x: Single = self.next_f32();
        x.lt(p)
    }
}

/// Two generators in the same state go on alike: they hand out the same word
/// and reach the same state.
pub proof fn law_same_state_same_sequence(a: Rng, b: Rng)
    requires
        a.state() == b.state(),
    ensures
        a.next_word() == b.next_word(),
        a.next_state() == b.next_state(),
{
}

/// A draw in the unit interval is never negative and never reaches one.
pub proof fn law_unit_draw_in_range(w: u64)
    ensures
        !unit_draw(w).negative(),
        unit_draw(w).magnitude() < single::ONE_BITS,
{
    assert(w >> 40 < 0x0100_0000) by (bit_vector);
    single::lemma_ratio_below_one((w >> 40) as nat, 0x0100_0000);
}

} // verus!
