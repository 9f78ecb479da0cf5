//! The kit: eight drum voices, and the buses they are mixed to.

use crate::bounds;
use crate::curve;
use crate::curve::Curve;
use crate::drums::pad::{Pad, PAD_COUNT};
use crate::drums::voice::DrumVoice;
use crate::order::Order;
use crate::params::{of, Params};
use crate::pool::Pool;
use crate::rng;
use crate::single::Single;
use vstd::prelude::*;

verus! {

/// The drum buses of one block.
#[derive(Debug, Clone)]
pub struct DrumBuses {
    pub dry_l: Vec<Single>,
    pub dry_r: Vec<Single>,
    pub send_l: Vec<Single>,
    pub send_r: Vec<Single>,
    /// The kick alone, for a compressor to listen to.
    pub kick: Vec<Single>,
}

impl DrumBuses {
    /// Gives every bus back to the pool.
    pub fn give_back(self, pool: &mut Pool)
        ensures
            final(pool).spare@ == old(pool).spare@ + seq![
                self.dry_l,
                self.dry_r,
                self.send_l,
                self.send_r,
                self.kick,
            ],
    {
        pool.give(self.dry_l);
        pool.give(self.dry_r);
        pool.give(self.send_l);
        pool.give(self.send_r);
        pool.give(self.kick);
    }
}

/// How loud a pad is on each side. Panning turns the far side down and leaves the near
/// one alone, so a centred pad is at full level on both.
pub open spec fn side_gains(pan: Single) -> (Single, Single) {
    (
        of(0x3F80_0000).difference(pan).smaller(of(0x3F80_0000)),
        of(0x3F80_0000).sum(pan).smaller(of(0x3F80_0000)),
    )
}

/// The gains of every pad on one of the buses.
pub open spec fn bus_gains(p: Params, left: bool, send: bool) -> Seq<Single> {
    Seq::new(
        PAD_COUNT as nat,
        |i: int|
            {
                let side = if left {
                    side_gains(p.pad_pan[i]).0
                } else {
                    side_gains(p.pad_pan[i]).1
                };
                if send {
                    side.product(p.pad_send[i])
                } else {
                    side
                }
            },
    )
}

/// The first `n` voices at their gains, summed, so many samples into the block.
pub open spec fn summed<F: Fn(Curve, Single) -> Single>(
    f: F,
    voices: Seq<DrumVoice>,
    gains: Seq<Single>,
    at: int,
    n: int,
) -> Single
    decreases n,
{
    if n <= 0 {
        of(0)
    } else {
        summed(f, voices, gains, at, n - 1).sum(
            voices[n - 1].played(at).heard(f).product(gains[n - 1]),
        )
    }
}

/// One bus over a block.
pub open spec fn bus<F: Fn(Curve, Single) -> Single>(
    f: F,
    voices: Seq<DrumVoice>,
    gains: Seq<Single>,
    level: Single,
    count: int,
) -> Seq<Single> {
    Seq::new(
        count as nat,
        |i: int| summed(f, voices, gains, i, PAD_COUNT as int).product(level),
    )
}

/// The kick over a block.
pub open spec fn kick_bus<F: Fn(Curve, Single) -> Single>(
    f: F,
    voices: Seq<DrumVoice>,
    level: Single,
    count: int,
) -> Seq<Single> {
    Seq::new(count as nat, |i: int| voices[0].played(i).heard(f).product(level))
}

/// Whether any voice sounds.
pub open spec fn rings(voices: Seq<DrumVoice>) -> bool {
    exists|i: int| 0 <= i < voices.len() && (#[trigger] voices[i]).active()
}

/// The gains of the two sides of a pad.
fn gains_of(pan: Single) -> (g: (Single, Single))
    ensures
        g == side_gains(pan),
{
    let one: Single = of(0x3F80_0000);
    (one.minus(pan).min(one), one.plus(pan).min(one))
}

/// The kit.
#[derive(Debug, Clone)]
pub struct Kit {
    pub voices: Vec<DrumVoice>,
}

/// Each voice has its own noise, or eight of them would sum into one loud hiss.
pub open spec fn voice_seed(seed: u64, i: int) -> u64 {
    seed ^ ((0x9E37_79B9 * (i + 1)) as u64)
}

/// The voices after an order. One that is not for a pad changes nothing.
pub open spec fn obeyed<F: Fn(Curve, Single) -> Single>(f: F, voices: Seq<DrumVoice>, order: Order) -> Seq<
    DrumVoice,
> {
    match order {
        Order::StrikePad { pad, velocity, tune, decay } => if pad < PAD_COUNT {
            voices.update(
                pad as int,
                voices[pad as int].struck(f, Pad::ALL[pad as int], velocity, tune, decay),
            )
        } else {
            voices
        },
        Order::SilencePad { pad } => if pad < PAD_COUNT {
            voices.update(pad as int, voices[pad as int].silenced())
        } else {
            voices
        },
        _ => voices,
    }
}

impl Kit {
    pub open spec fn wf(self) -> bool {
        &&& self.voices@.len() == PAD_COUNT
        &&& forall|i: int| 0 <= i < PAD_COUNT ==> (#[trigger] self.voices@[i]).wf()
    }

    /// A kit that has not been hit yet, each voice with its own seed.
    pub open spec fn fresh(self, sample_rate: Single, seed: u64) -> bool {
        &&& self.wf()
        &&& forall|i: int|
            0 <= i < PAD_COUNT ==> {
                let v = #[trigger] self.voices@[i];
                &&& !v.active()
                &&& v.sample_rate == sample_rate.larger(of(0x3F80_0000))
                &&& v.rng.state() == (if voice_seed(seed, i) == 0 {
                    rng::SPARE_SEED
                } else {
                    voice_seed(seed, i)
                })
            }
    }

    pub fn new(sample_rate: Single, seed: u64) -> (k: Kit)
        ensures
            k.fresh(sample_rate, seed),
    {
        let mut voices: Vec<DrumVoice> = Vec::new();
        let mut i: usize = 0;
        while i < PAD_COUNT
            invariant
                i <= PAD_COUNT,
                voices@.len() == i,
                forall|k: int|
                    0 <= k < i ==> {
                        let v = #[trigger] voices@[k];
                        &&& v.wf()
                        &&& !v.active()
                        &&& v.sample_rate == sample_rate.larger(of(0x3F80_0000))
                        &&& v.rng.state() == (if voice_seed(seed, k) == 0 {
                            rng::SPARE_SEED
                        } else {
                            voice_seed(seed, k)
                        })
                    },
            decreases PAD_COUNT - i,
        {
            let own: u64 = 0x9E37_79B9 * (i as u64 + 1);
            voices.push(DrumVoice::new(sample_rate, seed ^ own));
            i = i + 1;
        }
        Kit { voices }
    }

    /// Another sample rate silences the kit.
    pub fn set_sample_rate(&mut self, sample_rate: Single)
        requires
            old(self).wf(),
        ensures
            final(self).wf(),
            forall|i: int|
                0 <= i < PAD_COUNT ==> #[trigger] final(self).voices@[i] == (DrumVoice {
                    sample_rate: sample_rate.larger(of(0x3F80_0000)),
                    ..old(self).voices@[i].silenced()
                }),
    {
        let mut i: usize = 0;
        while i < PAD_COUNT
            invariant
                i <= PAD_COUNT,
                self.wf(),
                forall|k: int| i <= k < PAD_COUNT ==> self.voices@[k] == old(self).voices@[k],
                forall|k: int|
                    0 <= k < i ==> #[trigger] self.voices@[k] == (DrumVoice {
                        sample_rate: sample_rate.larger(of(0x3F80_0000)),
                        ..old(self).voices@[k].silenced()
                    }),
            decreases PAD_COUNT - i,
        {
            self.voices[i].set_sample_rate(sample_rate);
            i = i + 1;
        }
    }

    /// Carries out an order.
    pub fn obey<F: Fn(Curve, Single) -> Single + Copy>(&mut self, order: Order, f: F)
        requires
            old(self).wf(),
            curve::gives_curves(f),
        ensures
            final(self).wf(),
            final(self).voices@ == obeyed(f, old(self).voices@, order),
    {
        match order {
            Order::StrikePad { pad, velocity, tune, decay } => {
                if pad < PAD_COUNT {
                    self.voices[pad].hit(Pad::ALL[pad], velocity, tune, decay, f);
                }
            },
            Order::SilencePad { pad } => {
                if pad < PAD_COUNT {
                    self.voices[pad].silence();
                }
            },
            _ => {},
        }
    }

    /// Whether any pad rings.
    pub fn is_ringing(&self) -> (yes: bool)
        ensures
            yes == rings(self.voices@),
    {
        let mut i: usize = 0;
        while i < self.voices.len()
            invariant
                i <= self.voices@.len(),
                forall|k: int| 0 <= k < i ==> !(#[trigger] self.voices@[k]).active(),
            decreases self.voices@.len() - i,
        {
            if !self.voices[i].is_silent() {
                return true;
            }
            i = i + 1;
        }
        false
    }

    /// Renders the buses of a block; nothing if no pad rings, so that a rack nobody
    /// plays is not mixed at all.
    pub fn render<F: Fn(Curve, Single) -> Single + Copy>(
        &mut self,
        count: usize,
        p: &Params,
        f: F,
        pool: &mut Pool,
    ) -> (buses: Option<DrumBuses>)
        requires
            old(self).wf(),
            curve::gives_curves(f),
        ensures
            final(self).wf(),
            !rings(old(self).voices@) ==> buses is None && *final(self) == *old(self),
            rings(old(self).voices@) ==> ({
                let voices = old(self).voices@;
                let n = count as int;
                &&& buses matches Some(b) && {
                    &&& b.dry_l@ == bus(f, voices, bus_gains(*p, true, false), p.drum_level, n)
                    &&& b.dry_r@ == bus(f, voices, bus_gains(*p, false, false), p.drum_level, n)
                    &&& b.send_l@ == bus(f, voices, bus_gains(*p, true, true), p.drum_level, n)
                    &&& b.send_r@ == bus(f, voices, bus_gains(*p, false, true), p.drum_level, n)
                    &&& b.kick@ == kick_bus(f, voices, p.drum_level, n)
                }
                &&& forall|i: int|
                    0 <= i < PAD_COUNT ==> #[trigger] final(self).voices@[i] == voices[i].played(n)
            }),
    {
        if !self.is_ringing() {
            return None;
        }
        let ghost voices = self.voices@;
        let ghost (gl, gr, sl, sr) = (
            bus_gains(*p, true, false),
            bus_gains(*p, false, false),
            bus_gains(*p, true, true),
            bus_gains(*p, false, true),
        );
        let level: Single = p.drum_level;
        let mut b: DrumBuses = DrumBuses {
            dry_l: pool.take(),
            dry_r: pool.take(),
            send_l: pool.take(),
            send_r: pool.take(),
            kick: pool.take(),
        };
        let ghost n = count as int;
        let mut i: usize = 0;
        while i < count
            invariant
                i <= count,
                n == count,
                curve::gives_curves(f),
                level == p.drum_level,
                voices.len() == PAD_COUNT,
                self.wf(),
                gl == bus_gains(*p, true, false),
                gr == bus_gains(*p, false, false),
                sl == bus_gains(*p, true, true),
                sr == bus_gains(*p, false, true),
                forall|k: int|
                    0 <= k < PAD_COUNT ==> #[trigger] self.voices@[k] == voices[k].played(i as int),
                b.dry_l@ == bus(f, voices, gl, level, n).take(i as int),
                b.dry_r@ == bus(f, voices, gr, level, n).take(i as int),
                b.send_l@ == bus(f, voices, sl, level, n).take(i as int),
                b.send_r@ == bus(f, voices, sr, level, n).take(i as int),
                b.kick@ == kick_bus(f, voices, level, n).take(i as int),
            decreases count - i,
        {
            let zero: Single = of(0);
            let mut sums: (Single, Single, Single, Single) = (zero, zero, zero, zero);
            let mut kick: Single = zero;
            let mut pad: usize = 0;
            while pad < PAD_COUNT
                invariant
                    pad <= PAD_COUNT,
                    i < count,
                    curve::gives_curves(f),
                    voices.len() == PAD_COUNT,
                    self.wf(),
                    gl == bus_gains(*p, true, false),
                    gr == bus_gains(*p, false, false),
                    sl == bus_gains(*p, true, true),
                    sr == bus_gains(*p, false, true),
                    forall|k: int|
                        0 <= k < PAD_COUNT ==> #[trigger] self.voices@[k] == voices[k].played(
                            if k < pad {
                                i + 1
                            } else {
                                i as int
                            },
                        ),
                    sums.0 == summed(f, voices, gl, i as int, pad as int),
                    sums.1 == summed(f, voices, gr, i as int, pad as int),
                    sums.2 == summed(f, voices, sl, i as int, pad as int),
                    sums.3 == summed(f, voices, sr, i as int, pad as int),
                    0 < pad ==> kick == voices[0].played(i as int).heard(f),
                decreases PAD_COUNT - pad,
            {
                let x: Single = self.voices[pad].next(f);
                if pad == 0 {
                    kick = x;
                }
                let (l, r) = gains_of(p.pad_pan[pad]);
                let send: Single = p.pad_send[pad];
                sums = (
                    sums.0.plus(x.times(l)),
                    sums.1.plus(x.times(r)),
                    sums.2.plus(x.times(l.times(send))),
                    sums.3.plus(x.times(r.times(send))),
                );
                pad = pad + 1;
            }
            b.dry_l.push(sums.0.times(level));
            b.dry_r.push(sums.1.times(level));
            b.send_l.push(sums.2.times(level));
            b.send_r.push(sums.3.times(level));
            b.kick.push(kick.times(level));
            assert(b.dry_l@ =~= bus(f, voices, gl, level, n).take(i + 1));
            assert(b.dry_r@ =~= bus(f, voices, gr, level, n).take(i + 1));
            assert(b.send_l@ =~= bus(f, voices, sl, level, n).take(i + 1));
            assert(b.send_r@ =~= bus(f, voices, sr, level, n).take(i + 1));
            assert(b.kick@ =~= kick_bus(f, voices, level, n).take(i + 1));
            i = i + 1;
        }
        assert(b.dry_l@ =~= bus(f, voices, gl, level, n));
        assert(b.dry_r@ =~= bus(f, voices, gr, level, n));
        assert(b.send_l@ =~= bus(f, voices, sl, level, n));
        assert(b.send_r@ =~= bus(f, voices, sr, level, n));
        assert(b.kick@ =~= kick_bus(f, voices, level, n));
        Some(b)
    }
}

/// A centred pad is at full level on both sides.
pub proof fn law_a_centred_pad_is_at_full_level_on_both_sides(pan: Single)
    requires
        pan.magnitude() == 0,
    ensures
        side_gains(pan) == (of(0x3F80_0000), of(0x3F80_0000)),
{
    let one = of(0x3F80_0000);
    bounds::lemma_unit();
    bounds::lemma_opposite(pan);
    bounds::lemma_sum_with_zero(one, pan);
    bounds::lemma_sum_with_zero(one, pan.opposite());
}

/// A pad hard over puts nothing into the far side, whatever it plays, and is left alone
/// on the near one.
pub proof fn law_a_hard_panned_pad_is_silent_on_the_far_side(x: Single)
    requires
        x.finite(),
    ensures
        side_gains(of(0xBF80_0000)).0 == of(0x3F80_0000),
        x.product(side_gains(of(0xBF80_0000)).1).magnitude() == 0,
        x.product(side_gains(of(0x3F80_0000)).0).magnitude() == 0,
        side_gains(of(0x3F80_0000)).1 == of(0x3F80_0000),
{
    let one = of(0x3F80_0000);
    bounds::lemma_unit();
    bounds::lemma_opposite(one);
    bounds::lemma_opposite(of(0xBF80_0000));
    assert(one.opposite() == of(0xBF80_0000));
    assert(of(0xBF80_0000).opposite() == one);
    bounds::lemma_difference_with_itself(one);
    bounds::lemma_sum_bounds(one, one, one);
    bounds::lemma_product_with_zero(x, side_gains(of(0xBF80_0000)).1);
    bounds::lemma_product_with_zero(x, side_gains(one).0);
}

/// With every pad in the middle the drums are mono: both sides of each bus are the same.
pub proof fn law_a_centred_kit_is_mono<F: Fn(Curve, Single) -> Single>(
    f: F,
    voices: Seq<DrumVoice>,
    p: Params,
    send: bool,
    count: int,
)
    requires
        forall|i: int| 0 <= i < PAD_COUNT ==> (#[trigger] p.pad_pan[i]).magnitude() == 0,
    ensures
        bus(f, voices, bus_gains(p, true, send), p.drum_level, count) == bus(
            f,
            voices,
            bus_gains(p, false, send),
            p.drum_level,
            count,
        ),
{
    assert forall|i: int| 0 <= i < PAD_COUNT implies bus_gains(p, true, send)[i] == bus_gains(
        p,
        false,
        send,
    )[i] by {
        law_a_centred_pad_is_at_full_level_on_both_sides(p.pad_pan[i]);
    }
    assert(bus_gains(p, true, send) =~= bus_gains(p, false, send));
}

} // verus!
