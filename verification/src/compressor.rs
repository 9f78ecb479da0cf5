//! A feed-forward peak compressor with an optional external detector.
//!
//! The detector hears a level, the envelope follows it in decibels, and the gain comes
//! back linear.

use crate::bounds;
use crate::curve;
use crate::curve::{read, smoothing_over, Curve};
use crate::params::{of, CompressorParams};
use crate::pool::Pool;
use crate::single;
use crate::single::Single;
use vstd::arithmetic::power2::*;
use vstd::prelude::*;

verus! {

/// A feed-forward peak compressor. No delay lines, no lookahead.
#[derive(Debug, Clone, Copy, PartialEq, Eq, Structural)]
pub struct Compressor {
    /// Current gain reduction in decibels, positive meaning "turned down by".
    pub gr_db: Single,
    pub sample_rate: Single,
}

/// The level of one sample that the detector hears.
///
/// Below a floor it is silence, so that no logarithm sees zero. Above a ceiling, far
/// above any real signal, the input has already diverged. A sample that is not a
/// number gives way to the floor: it must not reach the envelope, where it would
/// stay for good.
pub open spec fn heard(level: Single) -> Single {
    level.larger(of(0x3089_705F)).smaller(of(0x4E6E_6B28))
}

/// What the detector hears of the `i`-th sample: the key signal if there is one, or
/// the louder channel.
pub open spec fn level_at(
    left: Seq<Single>,
    right: Seq<Single>,
    key: Option<Seq<Single>>,
    i: int,
) -> Single {
    heard(
        match key {
            Some(d) => d[i].size(),
            None => left[i].size().larger(right[i].size()),
        },
    )
}

/// The shortest of the signals: a short key shortens the block.
pub open spec fn shortest(left: nat, right: nat, key: Option<Seq<Single>>) -> nat {
    let both = if left < right {
        left
    } else {
        right
    };
    match key {
        Some(d) if d.len() < both => d.len(),
        _ => both,
    }
}

/// How many samples a time constant takes, at least one.
pub open spec fn time_constant(time_ms: Single, sample_rate: Single) -> Single {
    time_ms.product(of(0x3A83_126F)).product(sample_rate).larger(of(0x3F80_0000))
}

/// How much of what is over the threshold is taken off.
pub open spec fn steepness(ratio: Single) -> Single {
    of(0x3F80_0000).difference(of(0x3F80_0000).quotient(ratio))
}

/// The reduction that a level calls for, six decibels of knee around the threshold:
/// nothing below, the full slope above, and a parabola between.
pub open spec fn wanted(level_db: Single, threshold_db: Single, slope: Single) -> Single {
    let over = level_db.difference(threshold_db);
    if over.at_most(of(0xC040_0000)) {
        of(0)
    } else if of(0x4040_0000).at_most(over) {
        over.product(slope)
    } else {
        let x = over.sum(of(0x4040_0000));
        slope.product(x).product(x).quotient(of(0x4140_0000))
    }
}

/// One step of the envelope towards a target: rising with the attack, falling with
/// the release.
pub open spec fn followed(gr: Single, target: Single, attack: Single, release: Single) -> Single {
    let coef = if gr.below(target) {
        attack
    } else {
        release
    };
    target.sum(gr.difference(target).product(coef))
}

/// The reduction after the first `n` levels of a block.
pub open spec fn reduction_after(
    gr: Single,
    levels_db: Seq<Single>,
    p: CompressorParams,
    attack: Single,
    release: Single,
    n: int,
) -> Single
    decreases n,
{
    if n <= 0 {
        gr
    } else {
        followed(
            reduction_after(gr, levels_db, p, attack, release, n - 1),
            wanted(levels_db[n - 1], p.threshold_db, steepness(p.ratio)),
            attack,
            release,
        )
    }
}

impl Compressor {
    pub fn new(sample_rate: Single) -> (c: Compressor)
        ensures
            c == (Compressor { gr_db: of(0), sample_rate }),
    {
        Compressor { gr_db: of(0), sample_rate }
    }

    /// Another sample rate makes the reduction of the old one meaningless.
    pub fn set_sample_rate(&mut self, sample_rate: Single)
        ensures
            *final(self) == (Compressor { gr_db: of(0), sample_rate }),
    {
        self.sample_rate = sample_rate;
        self.gr_db = of(0);
    }

    /// The reduction currently applied, for a meter.
    pub fn gain_reduction_db(&self) -> (x: Single)
        ensures
            x == self.gr_db,
    {
        self.gr_db
    }

    /// How many samples a time takes. The exponential of minus its reciprocal is the
    /// coefficient whose envelope covers all but one e-th of its way in that time.
    pub fn time_samples(&self, time_ms: Single) -> (n: Single)
        ensures
            n == time_constant(time_ms, self.sample_rate),
    {
        time_ms.times(of(0x3A83_126F)).times(self.sample_rate).max(of(0x3F80_0000))
    }

    /// Whether there is anything to do on a block. Switched off, the compressor
    /// forgets its reduction, and its caller leaves the block alone.
    pub fn begin(&mut self, p: &CompressorParams) -> (works: bool)
        ensures
            works == p.on,
            *final(self) == (if p.on {
                *old(self)
            } else {
                Compressor { gr_db: of(0), ..*old(self) }
            }),
    {
        if !p.on {
            self.gr_db = of(0);
        }
        p.on
    }

    /// Follows a block of levels in decibels, and gives the gain for each, in
    /// decibels.
    pub fn follow(
        &mut self,
        levels_db: &[Single],
        p: &CompressorParams,
        attack: Single,
        release: Single,
        pool: &mut Pool,
    ) -> (gains_db: Vec<Single>)
        ensures
            gains_db@.len() == levels_db@.len(),
            forall|i: int|
                0 <= i < levels_db@.len() ==> #[trigger] gains_db@[i] == p.makeup_db.difference(
                    reduction_after(old(self).gr_db, levels_db@, *p, attack, release, i + 1),
                ),
            *final(self) == (Compressor {
                gr_db: reduction_after(
                    old(self).gr_db,
                    levels_db@,
                    *p,
                    attack,
                    release,
                    levels_db@.len() as int,
                ),
                ..*old(self)
            }),
    {
        let one: Single = of(0x3F80_0000);
        let slope: Single = one.minus(one.over(p.ratio));
        let knee: Single = of(0x4040_0000);
        let mut gains_db: Vec<Single> = pool.take();
        let mut i: usize = 0;
        while i < levels_db.len()
            invariant
                i <= levels_db@.len(),
                slope == steepness(p.ratio),
                knee == of(0x4040_0000),
                gains_db@.len() == i,
                self.sample_rate == old(self).sample_rate,
                self.gr_db == reduction_after(
                    old(self).gr_db,
                    levels_db@,
                    *p,
                    attack,
                    release,
                    i as int,
                ),
                forall|k: int|
                    0 <= k < i ==> #[trigger] gains_db@[k] == p.makeup_db.difference(
                        reduction_after(old(self).gr_db, levels_db@, *p, attack, release, k + 1),
                    ),
            decreases levels_db@.len() - i,
        {
            let over: Single = levels_db[i].minus(p.threshold_db);
            let target: Single = if over.le(of(0xC040_0000)) {
                of(0)
            } else if knee.le(over) {
                over.times(slope)
            } else {
                let x: Single = over.plus(knee);
                slope.times(x).times(x).over(of(0x4140_0000))
            };
            let coef: Single = if self.gr_db.lt(target) {
                attack
            } else {
                release
            };
            self.gr_db = target.plus(self.gr_db.minus(target).times(coef));
            gains_db.push(p.makeup_db.minus(self.gr_db));
            i = i + 1;
        }
        gains_db
    }
}

/// What the detector hears over a block, in decibels.
pub open spec fn decibels<F: Fn(Curve, Single) -> Single>(
    f: F,
    left: Seq<Single>,
    right: Seq<Single>,
    key: Option<Seq<Single>>,
) -> Seq<Single> {
    Seq::new(
        shortest(left.len(), right.len(), key),
        |i: int|
            of(0x41A0_0000).product(
                curve::at(f, Curve::DecimalLogarithm, level_at(left, right, key, i)),
            ),
    )
}

/// The gain of each sample of a block, for the levels that the detector hears.
pub open spec fn gains<F: Fn(Curve, Single) -> Single>(
    f: F,
    c: Compressor,
    levels_db: Seq<Single>,
    p: CompressorParams,
) -> Seq<Single> {
    let attack = curve::smoothing(f, time_constant(p.attack_ms, c.sample_rate));
    let release = curve::smoothing(f, time_constant(p.release_ms, c.sample_rate));
    Seq::new(
        levels_db.len(),
        |i: int|
            curve::at(
                f,
                Curve::TenTo,
                p.makeup_db.difference(
                    reduction_after(c.gr_db, levels_db, p, attack, release, i + 1),
                ).quotient(of(0x41A0_0000)),
            ),
    )
}

/// The compressor after a block.
pub open spec fn compressor_after<F: Fn(Curve, Single) -> Single>(
    f: F,
    c: Compressor,
    left: Seq<Single>,
    right: Seq<Single>,
    key: Option<Seq<Single>>,
    p: CompressorParams,
) -> Compressor {
    let levels_db = decibels(f, left, right, key);
    Compressor {
        gr_db: if p.on {
            reduction_after(
                c.gr_db,
                levels_db,
                p,
                curve::smoothing(f, time_constant(p.attack_ms, c.sample_rate)),
                curve::smoothing(f, time_constant(p.release_ms, c.sample_rate)),
                levels_db.len() as int,
            )
        } else {
            of(0)
        },
        ..c
    }
}

/// One channel of a block after the compressor, which hears both. Switched off, it
/// does not touch the block at all.
pub open spec fn compressed<F: Fn(Curve, Single) -> Single>(
    f: F,
    c: Compressor,
    channel: Seq<Single>,
    left: Seq<Single>,
    right: Seq<Single>,
    key: Option<Seq<Single>>,
    p: CompressorParams,
) -> Seq<Single> {
    if p.on {
        scaled(channel, gains(f, c, decibels(f, left, right, key), p))
    } else {
        channel
    }
}

/// A key signal as a sequence.
pub open spec fn key_of(key: Option<&Vec<Single>>) -> Option<Seq<Single>> {
    match key {
        Some(d) => Some(d@),
        None => None,
    }
}

impl Compressor {
    /// Runs a block through the compressor, in place. With a key it listens to that
    /// instead of the block.
    pub fn process<F: Fn(Curve, Single) -> Single + Copy>(
        &mut self,
        left: &mut Vec<Single>,
        right: &mut Vec<Single>,
        key: Option<&Vec<Single>>,
        p: &CompressorParams,
        f: F,
        pool: &mut Pool,
    )
        requires
            curve::gives_curves(f),
        ensures
            final(left)@ == compressed(
                f,
                *old(self),
                old(left)@,
                old(left)@,
                old(right)@,
                key_of(key),
                *p,
            ),
            final(right)@ == compressed(
                f,
                *old(self),
                old(right)@,
                old(left)@,
                old(right)@,
                key_of(key),
                *p,
            ),
            *final(self) == compressor_after(
                f,
                *old(self),
                old(left)@,
                old(right)@,
                key_of(key),
                *p,
            ),
    {
        if !self.begin(p) {
            return ;
        }
        let attack: Single = smoothing_over(f, Some(self.time_samples(p.attack_ms)));
        let release: Single = smoothing_over(f, Some(self.time_samples(p.release_ms)));
        let mut levels: Vec<Single> = detect(left, right, key, pool);
        let ghost heard = levels@;
        let mut i: usize = 0;
        while i < levels.len()
            invariant
                i <= levels@.len() == heard.len(),
                curve::gives_curves(f),
                forall|k: int| i <= k < levels@.len() ==> levels@[k] == heard[k],
                forall|k: int|
                    0 <= k < i ==> #[trigger] levels@[k] == of(0x41A0_0000).product(
                        curve::at(f, Curve::DecimalLogarithm, heard[k]),
                    ),
            decreases levels@.len() - i,
        {
            let db: Single = of(0x41A0_0000).times(read(f, Curve::DecimalLogarithm, levels[i]));
            levels.set(i, db);
            i = i + 1;
        }
        assert(levels@ =~= decibels(f, old(left)@, old(right)@, key_of(key)));
        let mut linear: Vec<Single> = self.follow(&levels, p, attack, release, pool);
        let ghost in_db = linear@;
        let mut k: usize = 0;
        while k < linear.len()
            invariant
                k <= linear@.len() == in_db.len(),
                curve::gives_curves(f),
                forall|j: int| k <= j < in_db.len() ==> linear@[j] == in_db[j],
                forall|j: int|
                    0 <= j < k ==> #[trigger] linear@[j] == curve::at(
                        f,
                        Curve::TenTo,
                        in_db[j].quotient(of(0x41A0_0000)),
                    ),
            decreases linear@.len() - k,
        {
            let gain: Single = read(f, Curve::TenTo, linear[k].over(of(0x41A0_0000)));
            linear.set(k, gain);
            k = k + 1;
        }
        assert(linear@ =~= gains(f, *old(self), levels@, *p));
        apply(left, &linear);
        apply(right, &linear);
        pool.give(linear);
        pool.give(levels);
    }
}

/// The levels that the detector hears over a block.
pub fn detect(
    left: &[Single],
    right: &[Single],
    key: Option<&Vec<Single>>,
    pool: &mut Pool,
) -> (levels: Vec<Single>)
    ensures
        ({
            let k = match key {
                Some(d) => Some(d@),
                None => None,
            };
            &&& levels@.len() == shortest(left@.len(), right@.len(), k)
            &&& forall|i: int|
                0 <= i < levels@.len() ==> #[trigger] levels@[i] == level_at(left@, right@, k, i)
        }),
{
    let ghost k = match key {
        Some(d) => Some(d@),
        None => None,
    };
    let both: usize = if left.len() < right.len() {
        left.len()
    } else {
        right.len()
    };
    let count: usize = match key {
        Some(d) => if d.len() < both {
            d.len()
        } else {
            both
        },
        None => both,
    };
    let mut levels: Vec<Single> = pool.take();
    let mut i: usize = 0;
    while i < count
        invariant
            i <= count <= left@.len(),
            count <= right@.len(),
            k == (match key {
                Some(d) => Some(d@),
                None => None,
            }),
            key matches Some(d) ==> count <= d@.len(),
            levels@.len() == i,
            forall|j: int|
                0 <= j < i ==> #[trigger] levels@[j] == level_at(left@, right@, k, j),
        decreases count - i,
    {
        let level: Single = match key {
            Some(d) => d[i].abs(),
            None => left[i].abs().max(right[i].abs()),
        };
        levels.push(level.max(of(0x3089_705F)).min(of(0x4E6E_6B28)));
        i = i + 1;
    }
    levels
}

/// A signal with its first samples scaled. What lies beyond the gains is left as it
/// is.
pub open spec fn scaled(bus: Seq<Single>, gains: Seq<Single>) -> Seq<Single> {
    Seq::new(
        bus.len(),
        |i: int|
            if i < gains.len() {
                bus[i].product(gains[i])
            } else {
                bus[i]
            },
    )
}

/// Applies a block of linear gains to a channel.
pub fn apply(bus: &mut Vec<Single>, gains: &[Single])
    ensures
        final(bus)@ == scaled(old(bus)@, gains@),
{
    let mut i: usize = 0;
    while i < bus.len() && i < gains.len()
        invariant
            i <= bus@.len() == old(bus)@.len(),
            i <= gains@.len(),
            forall|k: int| i <= k < bus@.len() ==> bus@[k] == old(bus)@[k],
            forall|k: int|
                0 <= k < i ==> #[trigger] bus@[k] == scaled(old(bus)@, gains@)[k],
        decreases bus@.len() - i,
    {
        let x: Single = bus[i].times(gains[i]);
        bus.set(i, x);
        i = i + 1;
    }
    assert(bus@ =~= scaled(old(bus)@, gains@));
}

/// No sample poisons the envelope: whatever comes in, not a number or infinite, what
/// the detector hears is a finite level between the floor and the ceiling. What is
/// not a number is silence to it.
pub proof fn law_no_sample_poisons_the_envelope(level: Single)
    ensures
        heard(level).finite(),
        of(0x3089_705F).at_most(heard(level)),
        heard(level).at_most(of(0x4E6E_6B28)),
        level.nan() ==> heard(level) == of(0x3089_705F),
{
}

/// A signal below the knee passes at unity: without a reduction, none comes about.
pub proof fn law_a_signal_below_threshold_passes_at_unity(
    level_db: Single,
    threshold_db: Single,
    slope: Single,
    attack: Single,
    release: Single,
)
    requires
        level_db.difference(threshold_db).at_most(of(0xC040_0000)),
        attack.finite(),
        release.finite(),
    ensures
        followed(of(0), wanted(level_db, threshold_db, slope), attack, release).magnitude() == 0,
{
    let zero = of(0);
    bounds::lemma_unit();
    bounds::lemma_difference_with_itself(zero);
    let d = zero.difference(zero);
    let coef = if zero.below(zero) {
        attack
    } else {
        release
    };
    bounds::lemma_product_with_zero(coef, d);
    bounds::lemma_sum_with_zero(zero, d.product(coef));
}

/// Whether a reduction lies between none and 256 decibels.
pub open spec fn in_range(gr: Single) -> bool {
    of(0).at_most(gr) && gr.at_most(of(0x4380_0000))
}

/// What a level calls for lies within the range, for any level the detector can hear
/// and any slope between none and full.
pub proof fn law_the_target_stays_in_range(level_db: Single, threshold_db: Single, slope: Single)
    requires
        level_db.finite(),
        level_db.at_most(of(0x4340_0000)),
        threshold_db.finite(),
        of(0xC280_0000).at_most(threshold_db),
        level_db.difference(threshold_db).finite(),
        bounds::in_unit(slope),
    ensures
        in_range(wanted(level_db, threshold_db, slope)),
{
    let (zero, top, three, six, twelve) = (
        of(0),
        of(0x4380_0000),
        of(0x4040_0000),
        of(0x40C0_0000),
        of(0x4140_0000),
    );
    let over = level_db.difference(threshold_db);
    bounds::lemma_unit();
    bounds::lemma_small_wholes();
    bounds::lemma_decibels();
    bounds::lemma_in_unit(slope);
    bounds::lemma_opposite(threshold_db);
    single::law_order_is_numeric(level_db, of(0x4340_0000));
    single::law_order_is_numeric(of(0xC280_0000), threshold_db);
    bounds::lemma_sum_bounds(level_db, threshold_db.opposite(), top);
    single::law_order_is_numeric(over, top);
    let (v, f, w) = (over.units(), slope.units(), pow2(149) as int);
    if over.at_most(of(0xC040_0000)) {
    } else if three.at_most(over) {
        single::law_order_is_numeric(three, over);
        assert(0 <= v * f <= v * w && 0 * w == 0) by (nonlinear_arith)
            requires
                0 <= v,
                0 <= f <= w,
        ;
        let t = over.product(slope);
        bounds::lemma_product_bounds(over, slope, zero);
        bounds::lemma_product_bounds(over, slope, over);
    } else {
        single::law_order_is_numeric(over, of(0xC040_0000));
        single::law_order_is_numeric(three, over);
        let x = over.sum(three);
        bounds::lemma_sum_bounds(over, three, zero);
        bounds::lemma_sum_bounds(over, three, six);
        assert(x.finite());
        single::law_order_is_numeric(zero, x);
        single::law_order_is_numeric(x, six);
        let u = x.units();
        assert(0 <= f * u <= u * w && 0 * w == 0) by (nonlinear_arith)
            requires
                0 <= u,
                0 <= f <= w,
        ;
        let a = slope.product(x);
        bounds::lemma_product_bounds(slope, x, zero);
        bounds::lemma_product_bounds(slope, x, x);
        assert(a.finite());
        single::law_order_is_numeric(zero, a);
        single::law_order_is_numeric(a, x);
        let b = a.product(x);
        let most = of(0x4210_0000);
        assert(0 <= a.units() * u <= (36 * w) * w) by (nonlinear_arith)
            requires
                0 <= a.units() <= u,
                u <= 6 * w,
                w >= 0,
        ;
        bounds::lemma_product_bounds(a, x, zero);
        bounds::lemma_product_bounds(a, x, most);
        assert(b.finite());
        single::law_order_is_numeric(zero, b);
        single::law_order_is_numeric(b, most);
        let k = b.units();
        assert(0 <= k * w <= (256 * w) * (12 * w) && 0 * (12 * w) == 0) by (nonlinear_arith)
            requires
                0 <= k <= 36 * w,
                w >= 0,
        ;
        bounds::lemma_quotient_bounds(b, twelve, zero);
        bounds::lemma_quotient_bounds(b, twelve, top);
    }
}

/// The reduction never leaves its range, and so is never anything but a number: it
/// stays between none and 256 decibels however long the compressor runs.
pub proof fn law_the_reduction_stays_in_range(
    gr: Single,
    target: Single,
    attack: Single,
    release: Single,
)
    requires
        in_range(gr),
        in_range(target),
        bounds::in_unit(attack),
        bounds::in_unit(release),
    ensures
        in_range(followed(gr, target, attack, release)),
{
    let (zero, top) = (of(0), of(0x4380_0000));
    let coef = if gr.below(target) {
        attack
    } else {
        release
    };
    bounds::lemma_unit();
    bounds::lemma_decibels();
    bounds::lemma_in_unit(coef);
    single::law_order_is_numeric(zero, gr);
    single::law_order_is_numeric(gr, top);
    single::law_order_is_numeric(zero, target);
    single::law_order_is_numeric(target, top);
    single::law_order_is_numeric(gr, target);
    bounds::lemma_opposite(target);
    bounds::lemma_opposite(top);
    let d = gr.difference(target);
    bounds::lemma_sum_bounds(gr, target.opposite(), top);
    bounds::lemma_sum_bounds(gr, target.opposite(), target.opposite());
    bounds::lemma_sum_bounds(gr, target.opposite(), zero);
    assert(d.finite());
    bounds::lemma_sum_error(gr, target.opposite());
    single::law_order_is_numeric(target.opposite(), d);
    single::law_order_is_numeric(d, zero);
    single::law_order_is_numeric(zero, d);
    let p = d.product(coef);
    let (v, f, w) = (d.units(), coef.units(), pow2(149) as int);
    assert((v >= 0 ==> 0 <= v * f <= v * w) && (v <= 0 ==> v * w <= v * f <= 0) && 0 * w == 0)
        by (nonlinear_arith)
        requires
            0 <= f <= w,
    ;
    bounds::lemma_product_bounds(d, coef, d);
    bounds::lemma_product_bounds(d, coef, zero);
    assert(p.finite());
    single::law_order_is_numeric(p, d);
    single::law_order_is_numeric(d, p);
    single::law_order_is_numeric(p, zero);
    single::law_order_is_numeric(zero, p);
    bounds::lemma_sum_bounds(target, p, zero);
    if gr.below(target) {
        bounds::lemma_sum_bounds(target, p, top);
    } else {
        bounds::lemma_within_256(target, p);
    }
}

/// A ratio of one or more takes off between nothing and everything.
proof fn lemma_steepness(ratio: Single)
    requires
        ratio.finite(),
        of(0x3F80_0000).at_most(ratio),
    ensures
        bounds::in_unit(steepness(ratio)),
{
    let (zero, one) = (of(0), of(0x3F80_0000));
    bounds::lemma_unit();
    single::law_order_is_numeric(one, ratio);
    lemma_pow2_pos(149);
    let (r, w) = (ratio.units(), pow2(149) as int);
    assert(0 <= w * w <= w * r && 0 * r == 0) by (nonlinear_arith)
        requires
            0 <= w <= r,
    ;
    bounds::lemma_quotient_bounds(one, ratio, zero);
    bounds::lemma_quotient_bounds(one, ratio, one);
    bounds::lemma_unit_rest(one.quotient(ratio));
}

/// Whether levels in decibels are such as the detector hears: none over the loudest it
/// lets through, and none so far from the threshold that the distance is no number.
pub open spec fn audible(levels_db: Seq<Single>, threshold_db: Single) -> bool {
    forall|i: int|
        0 <= i < levels_db.len() ==> {
            let x = #[trigger] levels_db[i];
            &&& x.finite()
            &&& x.at_most(of(0x4340_0000))
            &&& x.difference(threshold_db).finite()
        }
}

/// Within a block the reduction never leaves its range either: it lies there after
/// every sample, and so after the block, for every signal.
pub proof fn law_the_reduction_stays_in_range_over_a_block(
    gr: Single,
    levels_db: Seq<Single>,
    p: CompressorParams,
    attack: Single,
    release: Single,
    n: int,
)
    requires
        in_range(gr),
        n <= levels_db.len(),
        audible(levels_db, p.threshold_db),
        p.threshold_db.finite(),
        of(0xC280_0000).at_most(p.threshold_db),
        p.ratio.finite(),
        of(0x3F80_0000).at_most(p.ratio),
        bounds::in_unit(attack),
        bounds::in_unit(release),
    ensures
        in_range(reduction_after(gr, levels_db, p, attack, release, n)),
    decreases n,
{
    if n > 0 {
        law_the_reduction_stays_in_range_over_a_block(gr, levels_db, p, attack, release, n - 1);
        lemma_steepness(p.ratio);
        let x = levels_db[n - 1];
        law_the_target_stays_in_range(x, p.threshold_db, steepness(p.ratio));
        law_the_reduction_stays_in_range(
            reduction_after(gr, levels_db, p, attack, release, n - 1),
            wanted(x, p.threshold_db, steepness(p.ratio)),
            attack,
            release,
        );
    }
}

/// A compressor whose reduction is in range keeps it there, block after block, switched
/// on or off.
pub proof fn law_a_compressor_stays_in_range<F: Fn(Curve, Single) -> Single>(
    f: F,
    c: Compressor,
    left: Seq<Single>,
    right: Seq<Single>,
    key: Option<Seq<Single>>,
    p: CompressorParams,
)
    requires
        in_range(c.gr_db),
        audible(decibels(f, left, right, key), p.threshold_db),
        p.threshold_db.finite(),
        of(0xC280_0000).at_most(p.threshold_db),
        p.ratio.finite(),
        of(0x3F80_0000).at_most(p.ratio),
        bounds::in_unit(curve::smoothing(f, time_constant(p.attack_ms, c.sample_rate))),
        bounds::in_unit(curve::smoothing(f, time_constant(p.release_ms, c.sample_rate))),
    ensures
        in_range(compressor_after(f, c, left, right, key, p).gr_db),
{
    let levels_db = decibels(f, left, right, key);
    law_the_reduction_stays_in_range_over_a_block(
        c.gr_db,
        levels_db,
        p,
        curve::smoothing(f, time_constant(p.attack_ms, c.sample_rate)),
        curve::smoothing(f, time_constant(p.release_ms, c.sample_rate)),
        levels_db.len() as int,
    );
}

/// A key that is too short shortens the block: nothing is read past its end. One that
/// is long enough bounds nothing.
pub proof fn law_a_short_key_shortens_the_block(left: nat, right: nat, key: Seq<Single>)
    ensures
        shortest(left, right, Some(key)) <= key.len(),
        key.len() >= left && key.len() >= right ==> shortest(left, right, Some(key)) == shortest(
            left,
            right,
            None,
        ),
{
}

/// Switched off, a compressor is not there: it leaves both channels as they are, and its
/// meter empties.
pub proof fn law_a_switched_off_compressor_is_not_there<F: Fn(Curve, Single) -> Single>(
    f: F,
    c: Compressor,
    left: Seq<Single>,
    right: Seq<Single>,
    key: Option<Seq<Single>>,
    p: CompressorParams,
)
    requires
        !p.on,
    ensures
        compressed(f, c, left, left, right, key, p) == left,
        compressed(f, c, right, left, right, key, p) == right,
        compressor_after(f, c, left, right, key, p).gr_db == of(0),
{
}

} // verus!
