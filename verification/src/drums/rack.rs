//! The rack: eight pads and one grid.
//!
//! The rack is where a hit becomes a strike. It applies the per-pad controls the
//! sequencer knows nothing about and resolves choke groups.

use crate::clock::{Advance, ClockView, BLOCK};
use crate::drums::pad::{Pad, PAD_COUNT};
use crate::drums::sequencer::{DrumHits, DrumModel, DrumOutput, DrumSequencer};
use crate::order::Order;
use crate::params::{of, Params};
use crate::single::Single;
use vstd::prelude::*;

verus! {

/// The rack.
#[derive(Debug)]
pub struct DrumRack {
    pub sequencer: DrumSequencer,
    /// Which pads have ever been struck. A pad that has not cannot be choked.
    pub struck: [bool; PAD_COUNT],
}

/// The pad with a given place in the rack.
pub open spec fn pad_at(index: int) -> Pad {
    Pad::ALL[index]
}

/// Whether striking one pad cuts another short.
pub open spec fn chokes(struck: Seq<bool>, index: int, other: int) -> bool {
    other != index && struck[other] && pad_at(index).group() is Some && pad_at(other).group()
        == pad_at(index).group()
}

/// The cuts that striking a pad calls for, among the first `n` pads.
pub open spec fn choke_orders(struck: Seq<bool>, index: int, n: int) -> Seq<Order>
    decreases n,
{
    if n <= 0 {
        Seq::empty()
    } else {
        let before = choke_orders(struck, index, n - 1);
        if chokes(struck, index, n - 1) {
            before.push(Order::SilencePad { pad: (n - 1) as usize })
        } else {
            before
        }
    }
}

/// Whether a hit on a pad makes it sound: at a positive velocity, unmuted.
pub open spec fn lands(p: Params, hits: Seq<Single>, index: int) -> bool {
    !hits[index].at_most(of(0)) && !p.pad_mute[index]
}

/// The orders of the hits on the first `n` pads, and which pads have then ever
/// been struck.
pub open spec fn strike_orders(struck: Seq<bool>, p: Params, hits: Seq<Single>, n: int) -> (
    Seq<bool>,
    Seq<Order>,
)
    decreases n,
{
    if n <= 0 {
        (struck, Seq::empty())
    } else {
        let (s, o) = strike_orders(struck, p, hits, n - 1);
        let i = n - 1;
        if lands(p, hits, i) {
            (
                s.update(i, true),
                (o + choke_orders(s, i, PAD_COUNT as int)).push(
                    Order::StrikePad {
                        pad: i as usize,
                        velocity: hits[i].product(p.pad_level[i]),
                        tune: p.pad_tune[i],
                        decay: p.pad_decay[i],
                    },
                ),
            )
        } else {
            (s, o)
        }
    }
}

/// The orders that cut the first `n` pads dead.
pub open spec fn silence_orders(n: int) -> Seq<Order> {
    Seq::new(n as nat, |i: int| Order::SilencePad { pad: i as usize })
}

/// The state of the rack.
#[verifier::ext_equal]
pub struct RackModel {
    pub drums: DrumModel,
    pub struck: Seq<bool>,
}

impl RackModel {
    /// A rack nobody has touched.
    pub open spec fn blank() -> RackModel {
        RackModel {
            drums: DrumModel::blank(),
            struck: Seq::new(PAD_COUNT as nat, |k: int| false),
        }
    }

    pub open spec fn wf(self) -> bool {
        self.drums.wf() && self.struck.len() == PAD_COUNT
    }

    /// A block sequenced, and the orders it gives. Switched off, the rack keeps
    /// its place in the grid, throws the hits away, and cuts whatever rings.
    pub open spec fn cued(self, frames: int, adv: Advance, clock: ClockView, p: Params) -> (
        RackModel,
        Seq<Order>,
    ) {
        let n = if frames <= BLOCK {
            frames
        } else {
            BLOCK as int
        };
        let (drums, out) = self.drums.advanced(
            n,
            adv,
            clock,
            p.drum_length as int,
            p.seq_swing,
        );
        if p.drum_enabled {
            let (struck, orders) = strike_orders(self.struck, p, out.hits, PAD_COUNT as int);
            (RackModel { drums, struck }, orders)
        } else {
            (RackModel { drums, struck: self.struck }, silence_orders(PAD_COUNT as int))
        }
    }

    /// A tick of an external clock, and the orders it gives. Switched off, the
    /// rack keeps its place in the grid and throws the hits away.
    pub open spec fn ticked(self, ticked: bool, clock: ClockView, p: Params) -> (
        RackModel,
        Seq<Order>,
    ) {
        let (drums, out) = self.drums.ticked(ticked, clock, p.drum_length as int, p.seq_swing);
        if p.drum_enabled {
            let (struck, orders) = strike_orders(self.struck, p, out.hits, PAD_COUNT as int);
            (RackModel { drums, struck }, orders)
        } else {
            (RackModel { drums, struck: self.struck }, Seq::empty())
        }
    }
}

impl View for DrumRack {
    type V = RackModel;

    open spec fn view(&self) -> RackModel {
        RackModel { drums: self.sequencer@, struck: self.struck@ }
    }
}

impl DrumRack {
    pub open spec fn wf(self) -> bool {
        self.sequencer.wf()
    }

    /// The grid's sequencer, to edit.
    pub fn sequencer(&mut self) -> (s: &mut DrumSequencer)
        ensures
            *s == old(self).sequencer,
            *final(self) == (DrumRack { sequencer: *final(s), ..*old(self) }),
    {
        &mut self.sequencer
    }

    /// The grid's sequencer, to look at.
    pub fn sequencer_ref(&self) -> (s: &DrumSequencer)
        ensures
            *s == self.sequencer,
    {
        &self.sequencer
    }

    pub fn new() -> (r: DrumRack)
        ensures
            r.wf(),
            r@ == RackModel::blank(),
    {
        let r: DrumRack = DrumRack {
            sequencer: DrumSequencer::new(),
            struck: [false, false, false, false, false, false, false, false],
        };
        assert(r@.struck =~= RackModel::blank().struck);
        r
    }

    /// Orders every pad cut dead.
    pub fn silence(&self, orders: &mut Vec<Order>)
        ensures
            final(orders)@ == old(orders)@ + silence_orders(PAD_COUNT as int),
    {
        let mut i: usize = 0;
        assert(orders@ =~= old(orders)@ + silence_orders(0));
        while i < PAD_COUNT
            invariant
                i <= 8,
                orders@ == old(orders)@ + silence_orders(i as int),
            decreases 8 - i,
        {
            orders.push(Order::SilencePad { pad: i });
            i = i + 1;
            assert(orders@ =~= old(orders)@ + silence_orders(i as int));
        }
    }

    /// The external-clock path.
    pub fn on_tick(&mut self, ticked: bool, clock: ClockView, p: &Params, orders: &mut Vec<Order>)
        requires
            old(self).wf(),
            p.drum_length >= 1,
        ensures
            final(self).wf(),
            final(self)@ == old(self)@.ticked(ticked, clock, *p).0,
            final(orders)@ == old(orders)@ + old(self)@.ticked(ticked, clock, *p).1,
    {
        let out: DrumOutput = self.sequencer.on_tick(ticked, clock, p);
        if !p.drum_enabled {
            assert(orders@ =~= old(orders)@ + Seq::<Order>::empty());
            return ;
        }
        self.strike(&out, p, orders);
    }

    /// Sequences one block and orders what it strikes.
    ///
    /// A mute stops the hits, not the playhead: unmuting four bars later comes
    /// back in time rather than at the top.
    pub fn cue(
        &mut self,
        frames: usize,
        adv: Advance,
        clock: ClockView,
        p: &Params,
        orders: &mut Vec<Order>,
    )
        requires
            old(self).wf(),
            p.drum_length >= 1,
        ensures
            final(self).wf(),
            final(self)@ == old(self)@.cued(frames as int, adv, clock, *p).0,
            final(orders)@ == old(orders)@ + old(self)@.cued(frames as int, adv, clock, *p).1,
    {
        let frames: usize = if frames <= BLOCK {
            frames
        } else {
            BLOCK
        };
        let out: DrumOutput = self.sequencer.advance(frames, adv, clock, p);
        if !p.drum_enabled {
            // A pad struck just before the rack was switched off would otherwise
            // sit frozen mid-decay and resume its stale tail later.
            self.silence(orders);
            return ;
        }
        self.strike(&out, p, orders);
    }

    /// Turns a column of velocities into strikes, applying the per-pad controls
    /// and resolving choke groups.
    fn strike(&mut self, out: &DrumOutput, p: &Params, orders: &mut Vec<Order>)
        requires
            old(self).wf(),
        ensures
            final(self).wf(),
            final(self).sequencer == old(self).sequencer,
            (final(self)@.struck, final(orders)@) == ({
                let (s, o) = strike_orders(old(self)@.struck, *p, out@.hits, PAD_COUNT as int);
                (s, old(orders)@ + o)
            }),
    {
        let mut index: usize = 0;
        assert(orders@ =~= old(orders)@ + Seq::<Order>::empty());
        while index < PAD_COUNT
            invariant
                index <= 8,
                self.sequencer == old(self).sequencer,
                self.struck@ == strike_orders(old(self)@.struck, *p, out@.hits, index as int).0,
                orders@ == old(orders)@ + strike_orders(
                    old(self)@.struck,
                    *p,
                    out@.hits,
                    index as int,
                ).1,
            decreases 8 - index,
        {
            let velocity: Single = out.hits[index];
            let ghost before = orders@;
            let ghost (s, o) = strike_orders(old(self)@.struck, *p, out@.hits, index as int);
            if !velocity.le(of(0)) && !p.pad_mute[index] {
                // A hat cuts its group short before it sounds.
                self.choke(index, orders);
                orders.push(
                    Order::StrikePad {
                        pad: index,
                        velocity: velocity.times(p.pad_level[index]),
                        tune: p.pad_tune[index],
                        decay: p.pad_decay[index],
                    },
                );
                self.struck[index] = true;
                assert(orders@ =~= old(orders)@ + strike_orders(
                    old(self)@.struck,
                    *p,
                    out@.hits,
                    index + 1,
                ).1);
            }
            index = index + 1;
        }
    }

    fn choke(&self, index: usize, orders: &mut Vec<Order>)
        requires
            index < PAD_COUNT,
        ensures
            final(orders)@ == old(orders)@ + choke_orders(
                self.struck@,
                index as int,
                PAD_COUNT as int,
            ),
    {
        let group: Option<u8> = Pad::ALL[index].choke_group();
        let mut other: usize = 0;
        assert(orders@ =~= old(orders)@ + choke_orders(self.struck@, index as int, 0));
        while other < PAD_COUNT
            invariant
                index < PAD_COUNT,
                other <= 8,
                group == pad_at(index as int).group(),
                orders@ == old(orders)@ + choke_orders(self.struck@, index as int, other as int),
            decreases 8 - other,
        {
            if other != index && self.struck[other] && group.is_some() && same_group(
                Pad::ALL[other].choke_group(),
                group,
            ) {
                orders.push(Order::SilencePad { pad: other });
            }
            other = other + 1;
            assert(orders@ =~= old(orders)@ + choke_orders(
                self.struck@,
                index as int,
                other as int,
            ));
        }
    }
}

fn same_group(a: Option<u8>, b: Option<u8>) -> (yes: bool)
    ensures
        yes == (a == b),
{
    match (a, b) {
        (Some(x), Some(y)) => x == y,
        (None, None) => true,
        _ => false,
    }
}

/// A muted pad is never struck, and neither is one that was not hit.
pub proof fn law_muted_pad_is_silent(p: Params, hits: Seq<Single>, index: int)
    ensures
        p.pad_mute[index] ==> !lands(p, hits, index),
        hits[index] == of(0) ==> !lands(p, hits, index),
{
}

/// A mute stops the hits, not the playhead: whether the rack is switched on makes
/// no difference to its place in the grid, under either clock, so unmuting it four
/// bars later comes back in time rather than at the top.
pub proof fn law_a_muted_rack_keeps_its_place(
    r: RackModel,
    frames: int,
    adv: Advance,
    clock: ClockView,
    ticked: bool,
    on: Params,
    off: Params,
)
    requires
        on.drum_enabled && !off.drum_enabled,
        on.drum_length == off.drum_length,
        on.seq_swing == off.seq_swing,
    ensures
        r.cued(frames, adv, clock, on).0.drums == r.cued(frames, adv, clock, off).0.drums,
        r.ticked(ticked, clock, on).0.drums == r.ticked(ticked, clock, off).0.drums,
{
}

/// The hats cut each other short, and no other pad is ever cut.
pub proof fn law_only_hats_choke(struck: Seq<bool>, index: int, other: int)
    requires
        0 <= index < PAD_COUNT,
        0 <= other < PAD_COUNT,
        chokes(struck, index, other),
    ensures
        (index == 2 && other == 3) || (index == 3 && other == 2),
{
}

/// A pad cuts at most one other short, and only a hat does.
proof fn lemma_cuts_counted(struck: Seq<bool>, index: int, n: int)
    requires
        0 <= index < PAD_COUNT,
        0 <= n <= PAD_COUNT,
    ensures
        choke_orders(struck, index, n).len() <= (if (index == 2 && n > 3) || (index == 3 && n > 2) {
            1int
        } else {
            0
        }),
    decreases n,
{
    if n > 0 {
        lemma_cuts_counted(struck, index, n - 1);
        if chokes(struck, index, n - 1) {
            law_only_hats_choke(struck, index, n - 1);
        }
    }
}

/// The hits on the first `n` pads give an order each at most, and one more for each hat
/// among them.
pub proof fn law_hits_give_few_orders(struck: Seq<bool>, p: Params, hits: Seq<Single>, n: int)
    requires
        0 <= n <= PAD_COUNT,
    ensures
        strike_orders(struck, p, hits, n).1.len() <= n + (if n > 2 {
            1int
        } else {
            0
        }) + (if n > 3 {
            1int
        } else {
            0
        }),
    decreases n,
{
    if n > 0 {
        law_hits_give_few_orders(struck, p, hits, n - 1);
        lemma_cuts_counted(
            strike_orders(struck, p, hits, n - 1).0,
            n - 1,
            PAD_COUNT as int,
        );
    }
}

} // verus!
