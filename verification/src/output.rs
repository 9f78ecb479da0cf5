//! The output stage: drive, mixing, and the last guards before the device.
//!
//! Everything here works on a sample or on a bus; the mixer puts it together.

use crate::bounds;
use crate::clock::BLOCK;
use crate::params::{of, SidechainSource};
use crate::pool::Pool;
use crate::single;
use crate::single::Single;
use vstd::arithmetic::power2::*;
use vstd::prelude::*;

verus! {

/// How many samples the next chunk of a block holds.
pub fn chunk(left: usize) -> (n: usize)
    ensures
        n == (if left < BLOCK {
            left
        } else {
            BLOCK
        }),
{
    if left < BLOCK {
        left
    } else {
        BLOCK
    }
}

/// Cubic soft clipper, normalised to unity gain for small signals.
///
/// A hard clamp sounds like a fault. This curve bends smoothly into saturation,
/// which is what "drive" is supposed to sound like.
pub open spec fn clipped(x: Single) -> Single {
    if x.at_most(of(0xBF80_0000)) {
        of(0xBF2A_AAAB)  // minus two thirds
    } else if of(0x3F80_0000).at_most(x) {
        of(0x3F2A_AAAB)
    } else {
        x.difference(x.product(x).product(x).quotient(of(0x4040_0000)))
    }
}

pub fn soft_clip(x: Single) -> (y: Single)
    ensures
        y == clipped(x),
{
    if x.le(of(0xBF80_0000)) {
        of(0xBF2A_AAAB)
    } else if of(0x3F80_0000).le(x) {
        of(0x3F2A_AAAB)
    } else {
        x.minus(x.times(x).times(x).over(of(0x4040_0000)))
    }
}

/// A sample that is no finite number made silence.
pub open spec fn guarded(x: Single) -> Single {
    if x.finite() {
        x
    } else {
        of(0)
    }
}

pub fn guard(x: Single) -> (y: Single)
    ensures
        y == guarded(x),
{
    if x.is_finite() {
        x
    } else {
        of(0)
    }
}

/// A sample fit for the device: silence if it is no finite number, held to full
/// scale otherwise.
pub open spec fn legal(x: Single) -> Single {
    if x.finite() {
        x.clamped(of(0xBF80_0000), of(0x3F80_0000))
    } else {
        of(0)
    }
}

/// Whether a sample may go to the device.
pub open spec fn in_legal_range(x: Single) -> bool {
    of(0xBF80_0000).at_most(x) && x.at_most(of(0x3F80_0000))
}

pub fn legalise(x: Single) -> (y: Single)
    ensures
        y == legal(x),
        in_legal_range(y),
{
    if x.is_finite() {
        x.clamp(of(0xBF80_0000), of(0x3F80_0000))
    } else {
        of(0)
    }
}

/// A one-pole high-pass at the synth bus. It removes the DC that extreme pulse
/// widths and asymmetric clipping leave, which eats headroom.
#[derive(Debug, Clone, Copy, PartialEq, Eq, Structural)]
pub struct DcBlocker {
    pub x1: Single,
    pub y1: Single,
    pub coef: Single,
}

impl DcBlocker {
    /// The sample that comes out. Guarded here, before the effects: they
    /// recirculate whatever they are fed, so what is not finite would poison them
    /// for good.
    pub open spec fn passed(self, x: Single) -> Single {
        guarded(x.difference(self.x1).sum(self.coef.product(self.y1)))
    }

    /// The blocker after a sample.
    pub open spec fn after(self, x: Single) -> DcBlocker {
        DcBlocker { x1: x, y1: self.passed(x), coef: self.coef }
    }

    pub fn new(coef: Single) -> (d: DcBlocker)
        ensures
            d == (DcBlocker { x1: of(0), y1: of(0), coef }),
    {
        DcBlocker { x1: of(0), y1: of(0), coef }
    }

    pub fn next(&mut self, x: Single) -> (y: Single)
        ensures
            y == old(self).passed(x),
            *final(self) == old(self).after(x),
    {
        let y: Single = guard(x.minus(self.x1).plus(self.coef.times(self.y1)));
        self.x1 = x;
        self.y1 = y;
        y
    }
}

/// A voice sample driven into the clipper.
pub open spec fn driven(x: Single, drive: Single) -> Single {
    clipped(x.product(drive))
}

/// The DC blocker after the first `n` samples of a block.
pub open spec fn blocker_after(d: DcBlocker, block: Seq<Single>, drive: Single, n: int) -> DcBlocker
    decreases n,
{
    if n <= 0 {
        d
    } else {
        blocker_after(d, block, drive, n - 1).after(driven(block[n - 1], drive))
    }
}

/// The synth bus: drive into the soft clipper, the DC blocker, then the bus
/// level. After the clipper, not before it: gain into it would change how hard the
/// synth saturates, which is `drive`'s job.
pub fn synth_bus(
    block: &[Single],
    drive: Single,
    gain: Single,
    dc: &mut DcBlocker,
    pool: &mut Pool,
) -> (bus: Vec<Single>)
    ensures
        bus@.len() == block@.len(),
        forall|i: int|
            0 <= i < block@.len() ==> #[trigger] bus@[i] == blocker_after(
                *old(dc),
                block@,
                drive,
                i,
            ).passed(driven(block@[i], drive)).product(gain),
        *final(dc) == blocker_after(*old(dc), block@, drive, block@.len() as int),
{
    let mut bus: Vec<Single> = pool.take();
    let mut i: usize = 0;
    while i < block.len()
        invariant
            i <= block@.len(),
            bus@.len() == i,
            *dc == blocker_after(*old(dc), block@, drive, i as int),
            forall|k: int|
                0 <= k < i ==> #[trigger] bus@[k] == blocker_after(
                    *old(dc),
                    block@,
                    drive,
                    k,
                ).passed(driven(block@[k], drive)).product(gain),
        decreases block@.len() - i,
    {
        let x: Single = soft_clip(block[i].times(drive));
        let y: Single = dc.next(x);
        bus.push(y.times(gain));
        i = i + 1;
    }
    bus
}

/// A bus at a level.
pub open spec fn levelled(bus: Seq<Single>, gain: Single) -> Seq<Single> {
    Seq::new(bus.len(), |i: int| bus[i].product(gain))
}

/// Taps a bus at a level, for a send.
pub fn tap(bus: &[Single], gain: Single, pool: &mut Pool) -> (out: Vec<Single>)
    ensures
        out@ == levelled(bus@, gain),
{
    let mut out: Vec<Single> = pool.take();
    let mut i: usize = 0;
    while i < bus.len()
        invariant
            i <= bus@.len(),
            out@ == levelled(bus@, gain).take(i as int),
        decreases bus@.len() - i,
    {
        out.push(bus[i].times(gain));
        assert(out@ =~= levelled(bus@, gain).take(i + 1));
        i = i + 1;
    }
    assert(out@ =~= levelled(bus@, gain));
    out
}

/// The bass bus: its level, guarded. It passes through neither drive nor clipper:
/// its dirt comes from resonance and envelope depth.
pub fn bass_bus(block: &[Single], gain: Single, pool: &mut Pool) -> (out: Vec<Single>)
    ensures
        out@ == Seq::new(block@.len(), |i: int| guarded(block@[i].product(gain))),
{
    let mut out: Vec<Single> = pool.take();
    let ghost want = Seq::new(block@.len(), |i: int| guarded(block@[i].product(gain)));
    let mut i: usize = 0;
    while i < block.len()
        invariant
            i <= block@.len(),
            want == Seq::new(block@.len(), |i: int| guarded(block@[i].product(gain))),
            out@ == want.take(i as int),
        decreases block@.len() - i,
    {
        out.push(guard(block[i].times(gain)));
        assert(out@ =~= want.take(i + 1));
        i = i + 1;
    }
    assert(out@ =~= want);
    out
}

/// A bus with another added to it at a level.
pub open spec fn mixed(bus: Seq<Single>, other: Seq<Single>, gain: Single) -> Seq<Single> {
    Seq::new(bus.len(), |i: int| bus[i].sum(other[i].product(gain)))
}

/// Adds another bus at a level.
pub fn mix_in(bus: &mut Vec<Single>, other: &[Single], gain: Single)
    requires
        other@.len() >= old(bus)@.len(),
    ensures
        final(bus)@ == mixed(old(bus)@, other@, gain),
{
    let mut i: usize = 0;
    while i < bus.len()
        invariant
            i <= bus@.len() == old(bus)@.len(),
            other@.len() >= bus@.len(),
            forall|k: int| i <= k < bus@.len() ==> bus@[k] == old(bus)@[k],
            forall|k: int|
                0 <= k < i ==> #[trigger] bus@[k] == mixed(old(bus)@, other@, gain)[k],
        decreases bus@.len() - i,
    {
        let x: Single = bus[i].plus(other[i].times(gain));
        bus.set(i, x);
        i = i + 1;
    }
    assert(bus@ =~= mixed(old(bus)@, other@, gain));
}

/// A bus with another added to it as it is.
pub open spec fn joined(bus: Seq<Single>, other: Seq<Single>) -> Seq<Single> {
    Seq::new(bus.len(), |i: int| bus[i].sum(other[i]))
}

/// Adds another bus as it is.
pub fn join(bus: &mut Vec<Single>, other: &[Single])
    requires
        other@.len() >= old(bus)@.len(),
    ensures
        final(bus)@ == joined(old(bus)@, other@),
{
    let mut i: usize = 0;
    while i < bus.len()
        invariant
            i <= bus@.len() == old(bus)@.len(),
            other@.len() >= bus@.len(),
            forall|k: int| i <= k < bus@.len() ==> bus@[k] == old(bus)@[k],
            forall|k: int| 0 <= k < i ==> #[trigger] bus@[k] == joined(old(bus)@, other@)[k],
        decreases bus@.len() - i,
    {
        let x: Single = bus[i].plus(other[i]);
        bus.set(i, x);
        i = i + 1;
    }
    assert(bus@ =~= joined(old(bus)@, other@));
}

/// A bus with the effects' return added. The effects are an insert and hand back
/// dry plus wet; taking the send away leaves the wet.
pub open spec fn returned(bus: Seq<Single>, wet: Seq<Single>, send: Seq<Single>) -> Seq<Single> {
    Seq::new(bus.len(), |i: int| bus[i].sum(wet[i].difference(send[i])))
}

/// Adds the effects' return.
pub fn add_return(bus: &mut Vec<Single>, wet: &[Single], send: &[Single])
    requires
        wet@.len() >= old(bus)@.len(),
        send@.len() >= old(bus)@.len(),
    ensures
        final(bus)@ == returned(old(bus)@, wet@, send@),
{
    let mut i: usize = 0;
    while i < bus.len()
        invariant
            i <= bus@.len() == old(bus)@.len(),
            wet@.len() >= bus@.len(),
            send@.len() >= bus@.len(),
            forall|k: int| i <= k < bus@.len() ==> bus@[k] == old(bus)@[k],
            forall|k: int|
                0 <= k < i ==> #[trigger] bus@[k] == returned(old(bus)@, wet@, send@)[k],
        decreases bus@.len() - i,
    {
        let x: Single = bus[i].plus(wet[i].minus(send[i]));
        bus.set(i, x);
        i = i + 1;
    }
    assert(bus@ =~= returned(old(bus)@, wet@, send@));
}

/// A bus at the master level, every sample legal.
pub open spec fn finished(bus: Seq<Single>, gain: Single) -> Seq<Single> {
    Seq::new(bus.len(), |i: int| legal(bus[i].product(gain)))
}

/// The peak once the first `n` samples of a bus have been metered.
pub open spec fn metered(peak: Single, bus: Seq<Single>, n: int) -> Single
    decreases n,
{
    if n <= 0 {
        peak
    } else {
        metered(peak, bus, n - 1).larger(bus[n - 1].size())
    }
}

/// Brings one channel out at the master level, and meters it. A NaN that reached
/// the driver would be a loud, ugly failure; silence is the right answer if one
/// ever turned up.
pub fn finish(bus: &mut Vec<Single>, gain: Single, peak: Single) -> (metered_peak: Single)
    ensures
        final(bus)@ == finished(old(bus)@, gain),
        metered_peak == metered(peak, final(bus)@, final(bus)@.len() as int),
        forall|i: int| 0 <= i < final(bus)@.len() ==> in_legal_range(#[trigger] final(bus)@[i]),
{
    let mut top: Single = peak;
    let mut i: usize = 0;
    let ghost want = finished(bus@, gain);
    while i < bus.len()
        invariant
            i <= bus@.len() == old(bus)@.len() == want.len(),
            want == finished(old(bus)@, gain),
            top == metered(peak, want, i as int),
            forall|k: int| i <= k < bus@.len() ==> bus@[k] == old(bus)@[k],
            forall|k: int|
                0 <= k < i ==> #[trigger] bus@[k] == want[k] && in_legal_range(bus@[k]),
        decreases bus@.len() - i,
    {
        let x: Single = legalise(bus[i].times(gain));
        bus.set(i, x);
        top = top.max(x.abs());
        i = i + 1;
    }
    assert(bus@ =~= want);
    top
}

/// The middle of two channels. Where they are the same this gives the channel
/// back.
pub fn downmix(left: Single, right: Single) -> (x: Single)
    ensures
        x == left.sum(right).product(of(0x3F00_0000)),
{
    left.plus(right).times(of(0x3F00_0000))
}

/// What a compressor listens to, if not to its own input.
pub open spec fn key_signal(
    source: SidechainSource,
    dry_l: Seq<Single>,
    dry_r: Seq<Single>,
    kick: Seq<Single>,
    count: int,
) -> Option<Seq<Single>> {
    match source {
        SidechainSource::Off => None,
        SidechainSource::DrumBus => Some(
            Seq::new(
                count as nat,
                |i: int| dry_l[i].sum(dry_r[i]).product(of(0x3F00_0000)),
            ),
        ),
        SidechainSource::Kick => Some(kick.take(count)),
    }
}

/// The detector signal of a compressor, or `None` where it should detect on its
/// own input.
///
/// The tap is ahead of the drum fader, so pulling the rack to silence leaves a
/// trigger track that ducks without being heard.
pub fn sidechain(
    source: SidechainSource,
    dry_l: &[Single],
    dry_r: &[Single],
    kick: &[Single],
    count: usize,
    pool: &mut Pool,
) -> (key: Option<Vec<Single>>)
    requires
        count <= dry_l@.len(),
        count <= dry_r@.len(),
        count <= kick@.len(),
    ensures
        match key_signal(source, dry_l@, dry_r@, kick@, count as int) {
            None => key is None,
            Some(s) => key matches Some(k) && k@ == s,
        },
{
    match source {
        SidechainSource::Off => None,
        SidechainSource::DrumBus => {
            let mut out: Vec<Single> = pool.take();
            let ghost want = key_signal(source, dry_l@, dry_r@, kick@, count as int)->0;
            let mut i: usize = 0;
            while i < count
                invariant
                    i <= count <= dry_l@.len(),
                    count <= dry_r@.len(),
                    want == Seq::new(
                        count as nat,
                        |i: int| dry_l@[i].sum(dry_r@[i]).product(of(0x3F00_0000)),
                    ),
                    out@ == want.take(i as int),
                decreases count - i,
            {
                out.push(downmix(dry_l[i], dry_r[i]));
                assert(out@ =~= want.take(i + 1));
                i = i + 1;
            }
            assert(out@ =~= want);
            Some(out)
        },
        SidechainSource::Kick => {
            let mut out: Vec<Single> = pool.take();
            let mut i: usize = 0;
            while i < count
                invariant
                    i <= count <= kick@.len(),
                    out@ == kick@.take(i as int),
                decreases count - i,
            {
                out.push(kick[i]);
                assert(out@ =~= kick@.take(i + 1));
                i = i + 1;
            }
            Some(out)
        },
    }
}

/// Whatever the engine computed, what reaches the device is a number between minus
/// one and one.
pub proof fn law_output_never_leaves_the_legal_range(bus: Seq<Single>, gain: Single, i: int)
    requires
        0 <= i < bus.len(),
    ensures
        in_legal_range(finished(bus, gain)[i]),
        finished(bus, gain)[i].finite(),
{
}

/// Legal samples are left alone.
pub proof fn law_legal_samples_are_left_alone(x: Single)
    requires
        in_legal_range(x),
    ensures
        legal(x) == x,
{
}

/// A zeroed level silences a bus of finite samples.
pub proof fn law_a_zeroed_gain_silences(bus: Seq<Single>, gain: Single, i: int)
    requires
        0 <= i < bus.len(),
        bus[i].finite(),
        gain.magnitude() == 0,
    ensures
        levelled(bus, gain)[i].magnitude() == 0,
        finished(bus, gain)[i].magnitude() == 0,
{
    bounds::lemma_product_with_zero(bus[i], gain);
}

/// The clipper treats both sides alike: a sample turned round comes out turned
/// round.
pub proof fn law_the_clipper_is_odd(x: Single)
    requires
        !x.nan(),
    ensures
        clipped(x.opposite()).key() == -clipped(x).key(),
{
    if !x.at_most(of(0xBF80_0000)) && !of(0x3F80_0000).at_most(x) {
        let three = of(0x4040_0000);
        let y = x.opposite();
        lemma_cube(x);
        bounds::lemma_opposite(x);
        lemma_cube(y);
        bounds::lemma_product_opposite(x, x);
        bounds::lemma_product_opposite(x, x.product(x));
        lemma_times_self(x);
        lemma_times_self(y);
        assert(y.product(y) == x.product(x));
        let (t, u) = (x.product(x).product(x), y.product(y).product(y));
        assert(u == t.opposite());
        bounds::lemma_quotient_opposite(t, three);
        let c = t.quotient(three);
        assert(u.quotient(three) == c.opposite());
        bounds::lemma_opposite(c);
        bounds::lemma_sum_opposite(x, c.opposite());
    }
}

/// The order of two factors does not matter.
proof fn lemma_times_self(x: Single)
    ensures
        x.product(x).product(x) == x.product(x.product(x)),
{
    reveal(Single::product);
    let s = x.product(x);
    assert(s.parts().m * x.parts().m == x.parts().m * s.parts().m) by (nonlinear_arith);
}

/// Inside the clipper's range the square, the cube and its third stay there.
proof fn lemma_cube(x: Single)
    requires
        x.finite(),
        of(0xBF80_0000).at_most(x),
        x.at_most(of(0x3F80_0000)),
    ensures
        x.product(x).finite(),
        x.product(x).product(x).finite(),
        x.product(x).product(x).quotient(of(0x4040_0000)).finite(),
{
    let y = x.size();
    bounds::lemma_size(x);
    assert(bounds::in_unit(y));
    bounds::lemma_unit_product(y, y);
    bounds::lemma_unit_product(y.product(y), y);
    bounds::lemma_in_unit(y.product(y));
    bounds::lemma_in_unit(y.product(y).product(y));
    if x.negative() {
        bounds::lemma_product_opposite(y, y);
        bounds::lemma_product_opposite(y, y.product(y));
        lemma_times_self(y);
        lemma_times_self(x);
        assert(x == y.opposite());
        assert(x.product(x) == y.product(y));
        bounds::lemma_opposite(y.product(y).product(y));
    }
    let t = x.product(x).product(x);
    bounds::lemma_third(t);
}

/// The clipper never gives more than two thirds, but for the last place.
pub proof fn law_the_clipper_is_bounded(x: Single)
    requires
        !x.nan(),
    ensures
        clipped(x).at_most(of(0x3F2A_AAAC)),
        of(0xBF2A_AAAC).at_most(clipped(x)),
{
    if !x.at_most(of(0xBF80_0000)) && !of(0x3F80_0000).at_most(x) {
        if x.negative() {
            let y = x.opposite();
            lemma_clipped_positive(y);
            law_the_clipper_is_odd(y);
            assert(y.opposite() == x);
            lemma_cube(x);
            let c = x.product(x).product(x).quotient(of(0x4040_0000));
            bounds::lemma_opposite(c);
            bounds::lemma_sum_is_nearest(x, c.opposite());
        } else {
            lemma_clipped_positive(x);
        }
    }
}

proof fn lemma_clipped_positive(x: Single)
    requires
        !x.negative(),
        x.below(of(0x3F80_0000)),
    ensures
        of(0).at_most(clipped(x)),
        clipped(x).at_most(of(0x3F2A_AAAC)),
{
    let (zero, three, top) = (of(0), of(0x4040_0000), of(0x3F2A_AAAC));
    bounds::lemma_unit();
    assert(bounds::in_unit(x));
    bounds::lemma_in_unit(x);
    let s = x.product(x);
    let t = s.product(x);
    bounds::lemma_unit_product(x, x);
    bounds::lemma_unit_product(s, x);
    bounds::lemma_in_unit(s);
    bounds::lemma_in_unit(t);
    bounds::lemma_third(t);
    let c = t.quotient(three);
    bounds::lemma_opposite(c);
    // Not below zero: what is taken away is no more than what is there.
    bounds::lemma_sum_bounds(x, c.opposite(), zero);
    bounds::lemma_product_error(x, x);
    bounds::lemma_product_error(s, x);
    bounds::lemma_two_thirds();
    lemma2_to64();
    lemma_pow2_adds(24, 125);
    let (u, q, f, g, k) = (
        pow2(149) as int,
        pow2(125) as int,
        x.units(),
        s.units(),
        t.units(),
    );
    assert(u == 0x0100_0000 * q && q > 0) by {
        lemma_pow2_pos(125);
    }
    lemma_knee(u, q, f, g, k, c.units());
    bounds::lemma_sum_bounds(x, c.opposite(), top);
}

/// A number below one less a third of its cube is at most two thirds, and a cube
/// computed in three roundings is off by no more than three last places.
proof fn lemma_knee(u: int, q: int, x: int, s: int, t: int, c: int)
    requires
        u == 0x0100_0000 * q,
        q > 8,
        0 <= x <= u,
        0 <= s <= u,
        0 <= t <= u,
        0 <= c,
        0x0100_0000 * (x * x - s * u) <= x * x + 0x0080_0000 * u,
        0x0100_0000 * (s * x - t * u) <= s * x + 0x0080_0000 * u,
        0x0100_0000 * (t - 3 * c) <= t + 0x0080_0000 * 3,
    ensures
        3 * (x - c) <= 2 * u + 3 * q + 6,
{
    assert(x * x <= u * u && s * x <= u * u) by (nonlinear_arith)
        requires
            0 <= x <= u,
            0 <= s <= u,
    ;
    // Each rounding loses at most one last place at the top of the range.
    assert(x * x - s * u <= (q + 1) * u) by (nonlinear_arith)
        requires
            0x0100_0000 * (x * x - s * u) <= x * x + 0x0080_0000 * u,
            x * x <= u * u,
            u == 0x0100_0000 * q,
            q > 0,
    ;
    assert(s * x - t * u <= (q + 1) * u) by (nonlinear_arith)
        requires
            0x0100_0000 * (s * x - t * u) <= s * x + 0x0080_0000 * u,
            s * x <= u * u,
            u == 0x0100_0000 * q,
            q > 0,
    ;
    assert(t - 3 * c <= q + 2);
    // x^3 <= s*x*u + (q+1)*u*x <= t*u*u + 2*(q+1)*u*u
    assert(x * (x * x) <= (t + 2 * (q + 1)) * (u * u)) by (nonlinear_arith)
        requires
            x * x - s * u <= (q + 1) * u,
            s * x - t * u <= (q + 1) * u,
            0 <= x <= u,
            q > 0,
    {
        let e = (q + 1) * u;
        assert(x * (x * x) <= x * (s * u + e));
        assert(x * (s * u + e) == (s * x) * u + x * e);
        assert((s * x) * u <= (t * u + e) * u);
        assert(x * e <= u * e);
        assert((t * u + e) * u + u * e == (t + 2 * (q + 1)) * (u * u));
    }
    // (u - x)^2 * (2u + x) >= 0
    assert(3 * x * (u * u) <= x * (x * x) + 2 * (u * (u * u))) by (nonlinear_arith)
        requires
            0 <= x <= u,
    {
        let d = u - x;
        assert(d * d >= 0);
        assert((d * d) * (2 * u + x) >= 0);
        assert((d * d) * (2 * u + x) == x * (x * x) + 2 * (u * (u * u)) - 3 * x * (u * u));
    }
    let w = u * u;
    assert(w > 0) by (nonlinear_arith)
        requires
            w == u * u,
            u > 0,
    ;
    assert(3 * x <= t + 2 * (q + 1) + 2 * u) by (nonlinear_arith)
        requires
            3 * x * w <= x * (x * x) + 2 * (u * w),
            x * (x * x) <= (t + 2 * (q + 1)) * w,
            w > 0,
    {
        assert((3 * x) * w <= (t + 2 * (q + 1) + 2 * u) * w);
    }
}

/// The meter shows at least every sample that went out.
pub proof fn law_the_meter_misses_nothing(peak: Single, bus: Seq<Single>, n: int, i: int)
    requires
        0 <= i < n <= bus.len(),
        !bus[i].nan(),
    ensures
        bus[i].size().at_most(metered(peak, bus, n)),
    decreases n,
{
    if i < n - 1 {
        law_the_meter_misses_nothing(peak, bus, n - 1, i);
    }
}

/// A closed send adds nothing to a bus. Only the sign of a zero may differ.
pub proof fn law_a_closed_send_adds_nothing(
    bus: Seq<Single>,
    other: Seq<Single>,
    gain: Single,
    i: int,
)
    requires
        0 <= i < bus.len() <= other.len(),
        bus[i].finite(),
        other[i].finite(),
        gain.magnitude() == 0,
    ensures
        mixed(bus, other, gain)[i].key() == bus[i].key(),
{
    law_a_zeroed_gain_silences(other, gain, i);
    bounds::lemma_sum_with_zero(bus[i], other[i].product(gain));
}

/// Effects that hand back what they were sent add nothing. Only the sign of a zero
/// may differ.
pub proof fn law_the_return_adds_nothing_at_zero_mix(bus: Seq<Single>, send: Seq<Single>, i: int)
    requires
        0 <= i < bus.len() <= send.len(),
        bus[i].finite(),
        send[i].finite(),
    ensures
        returned(bus, send, send)[i].key() == bus[i].key(),
{
    bounds::lemma_difference_with_itself(send[i]);
    bounds::lemma_sum_with_zero(bus[i], send[i].difference(send[i]));
}

/// A channel mixed with itself is that channel, so a signal that is the same on both
/// sides comes out of a stereo stage as it went in. Only the sign of a zero may
/// differ, and numbers too large to double are left out.
pub proof fn law_a_channel_mixed_with_itself_is_itself(x: Single)
    requires
        x.finite(),
        x.exponent() < 254,
    ensures
        x.sum(x).product(of(0x3F00_0000)).key() == x.key(),
{
    bounds::lemma_doubled(x);
    bounds::lemma_halved(x, x.sum(x));
}

} // verus!
