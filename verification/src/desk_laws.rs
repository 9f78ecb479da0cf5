//! What the desk does to the sound: the compressors, the kit's pans and hits, and the
//! faders.

use crate::bounds;
use crate::compressor;
use crate::curve;
use crate::curve::Curve;
use crate::drums::kit;
use crate::drums::kit::DrumBuses;
use crate::drums::pad::PAD_COUNT;
use crate::drums::rack;
use crate::drums::voice::DrumVoice;
use crate::exact;
use crate::mixer;
use crate::mixer::Mixer;
use crate::order::Order;
use crate::output;
use crate::output::DcBlocker;
use crate::panel_laws;
use crate::params::{of, Params, SidechainSource};
use crate::reverb;
use crate::rng;
use crate::single;
use crate::single::{Single, HIDDEN};
use crate::sound_laws;
use vstd::arithmetic::power2::*;
use vstd::prelude::*;

verus! {

// --- Compressors ---

/// On its own a detector hears the louder channel, whichever it is, and takes a dip for a
/// peak: at least as much as either, and no more than one of them, within its range.
pub proof fn law_the_detector_hears_the_louder_channel(
    left: Seq<Single>,
    right: Seq<Single>,
    i: int,
)
    requires
        left[i].finite(),
        right[i].finite(),
        of(0x3089_705F).at_most(left[i].size()) && left[i].size().at_most(of(0x4E6E_6B28)),
        of(0x3089_705F).at_most(right[i].size()) && right[i].size().at_most(of(0x4E6E_6B28)),
    ensures
        ({
            let level = compressor::level_at(left, right, None, i);
            &&& level.units() >= left[i].units() && level.units() >= -left[i].units()
            &&& level.units() >= right[i].units() && level.units() >= -right[i].units()
            &&& level == left[i].size() || level == right[i].size()
            &&& compressor::level_at(right, left, None, i) == level
        }),
{
    bounds::lemma_size(left[i]);
    bounds::lemma_size(right[i]);
    bounds::lemma_opposite(left[i].size());
    bounds::lemma_opposite(right[i].size());
    single::law_order_is_numeric(left[i].size(), right[i].size());
    single::law_order_is_numeric(right[i].size(), left[i].size());
    let (a, b) = (left[i].size(), right[i].size());
    if !a.below(b) && !b.below(a) {
        bounds::lemma_sign_and_size(a, b);
    }
}

/// With a key a detector hears the key and nothing else.
pub proof fn law_a_key_is_all_the_detector_hears(
    left: Seq<Single>,
    right: Seq<Single>,
    other_left: Seq<Single>,
    other_right: Seq<Single>,
    key: Seq<Single>,
    i: int,
)
    requires
        key[i].finite(),
        of(0x3089_705F).at_most(key[i].size()) && key[i].size().at_most(of(0x4E6E_6B28)),
    ensures
        compressor::level_at(left, right, Some(key), i) == key[i].size(),
        compressor::level_at(left, right, Some(key), i) == compressor::level_at(
            other_left,
            other_right,
            Some(key),
            i,
        ),
{
}

/// A reduction rises at the attack and falls at the release, and neither time is heard in
/// the other direction. Without a time it is there at once.
pub proof fn law_a_rise_has_the_attack_and_a_fall_the_release(
    gr: Single,
    target: Single,
    attack: Single,
    release: Single,
    other: Single,
)
    requires
        gr.finite(),
        target.finite(),
        gr.difference(target).finite(),
    ensures
        gr.units() < target.units() ==> {
            &&& compressor::followed(gr, target, attack, release) == compressor::followed(
                gr,
                target,
                attack,
                other,
            )
            &&& compressor::followed(gr, target, of(0), release).units() == target.units()
        },
        gr.units() > target.units() ==> {
            &&& compressor::followed(gr, target, attack, release) == compressor::followed(
                gr,
                target,
                other,
                release,
            )
            &&& compressor::followed(gr, target, attack, of(0)).units() == target.units()
        },
{
    let d = gr.difference(target);
    single::law_order_is_numeric(gr, target);
    single::law_order_is_numeric(target, gr);
    bounds::lemma_product_with_zero(d, of(0));
    bounds::lemma_sum_with_zero(target, d.product(of(0)));
    let x = target.sum(d.product(of(0)));
    single::law_order_is_numeric(x, target);
    single::law_order_is_numeric(target, x);
}

/// What is left of a reduction after a step is the coefficient's share of the way to the
/// target: between two whole numbers of decibels, half of the way for a half.
pub proof fn law_half_a_coefficient_goes_half_of_the_way(
    gr: Single,
    target: Single,
    j: int,
    k: int,
    release: Single,
)
    requires
        gr.finite(),
        target.finite(),
        gr.units() == exact::whole(j),
        target.units() == exact::whole(k),
        0 <= j < k <= 256,
    ensures
        2 * compressor::followed(gr, target, of(0x3F00_0000), release).units() == exact::whole(
            j + k,
        ),
{
    let (half, w) = (of(0x3F00_0000), pow2(149) as int);
    bounds::lemma_small_wholes();
    lemma_pow2_pos(149);
    lemma_pow2_unfold(149);
    single::law_order_is_numeric(gr, target);
    single::law_order_is_numeric(target, gr);
    bounds::lemma_opposite(target);
    let way = exact::lemma_scaled_whole(k - j, 0);
    let step = exact::lemma_scaled_whole(k - j, -1);
    let end = exact::lemma_scaled_whole(j + k, -1);
    let h = pow2(148) as int;
    assert(bounds::over(0, -149) == pow2(149) && bounds::over(-1, -149) == pow2(148));
    bounds::lemma_opposite(way);
    bounds::lemma_opposite(step);
    assert((k - j) * w == k * w - j * w && (j + k) * w == j * w + k * w && (k - j) * w == 2 * ((k
        - j) * h) && (j + k) * w == 2 * ((j + k) * h) && k * w - (k - j) * h == (j + k) * h && j * w < k * w) by (nonlinear_arith)
        requires
            w == 2 * h,
            w > 0,
            j < k,
    ;
    assert(gr.units() + target.opposite().units() == way.opposite().units());
    exact::lemma_exact_sum(gr, target.opposite(), way.opposite());
    let d = gr.difference(target);
    let u = half.units();
    assert(step.opposite().units() * w == d.units() * u) by (nonlinear_arith)
        requires
            2 * step.opposite().units() == d.units(),
            2 * u == w,
    ;
    exact::lemma_exact_product(d, half, step.opposite());
    exact::lemma_exact_sum(target, d.product(half), end);
}

/// What a ratio takes off, as a share of the whole: the rest, times the ratio, is all of it.
proof fn lemma_steepness(ratio: Single)
    requires
        ratio.finite(),
        exact::whole(1) <= ratio.units() <= exact::whole(64),
    ensures
        bounds::in_unit(compressor::steepness(ratio)),
        0x0100_0000 * ((pow2(149) - compressor::steepness(ratio).units()) * ratio.units()
            - exact::whole(pow2(149) as int)) <= 128 * exact::whole(pow2(149) as int),
        0x0100_0000 * (exact::whole(pow2(149) as int) - (pow2(149) - compressor::steepness(
            ratio,
        ).units()) * ratio.units()) <= 128 * exact::whole(pow2(149) as int),
{
    let (one, zero, w, r) = (of(0x3F80_0000), of(0), pow2(149) as int, ratio.units());
    bounds::lemma_unit();
    lemma_a_small_part();
    let q = one.quotient(ratio);
    assert(w * w <= w * r && w * w >= 0 * r && w * w >= HIDDEN * r) by (nonlinear_arith)
        requires
            w <= r <= 64 * w,
            w >= 64 * HIDDEN,
            HIDDEN > 0,
    ;
    bounds::lemma_quotient_bounds(one, ratio, one);
    bounds::lemma_quotient_bounds(one, ratio, zero);
    bounds::lemma_in_unit(q);
    exact::lemma_quotient_close(one, ratio);
    bounds::lemma_unit_rest(q);
    let s = one.difference(q);
    bounds::lemma_in_unit(s);
    bounds::lemma_opposite(q);
    bounds::lemma_sum_error(one, q.opposite());
    let (u, v) = (q.units(), s.units());
    assert(0x0100_0000 * (w - v - u) <= w && 0x0100_0000 * (u - (w - v)) <= w);
    assert(0x0100_0000 * ((w - v) * r - u * r) <= w * r && 0x0100_0000 * (u * r - (w - v) * r) <= w
        * r && w * r <= 64 * (w * w)) by (nonlinear_arith)
        requires
            0x0100_0000 * (w - v - u) <= w,
            0x0100_0000 * (u - (w - v)) <= w,
            0 < r <= 64 * w,
            w > 0,
    ;
}

/// Above the knee a compressor with a ratio lets one decibel out for so many in: what is
/// left above the threshold, times the ratio, is what came in above it.
pub proof fn law_a_ratio_is_decibels_in_for_one_out(level: Single, threshold: Single, ratio: Single)
    requires
        level.finite(),
        threshold.finite(),
        ratio.finite(),
        exact::whole(1) <= ratio.units() <= exact::whole(64),
        exact::whole(3) <= level.units() - threshold.units() <= exact::whole(256),
    ensures
        ({
            let over = level.units() - threshold.units();
            let left = over - compressor::wanted(
                level,
                threshold,
                compressor::steepness(ratio),
            ).units();
            exact::close(left * ratio.units(), exact::whole(over), 512)
        }),
{
    let (w, r, t) = (pow2(149) as int, ratio.units(), 0x0100_0000int);
    let (three, top, zero) = (of(0x4040_0000), of(0x4380_0000), of(0));
    let slope = compressor::steepness(ratio);
    lemma_steepness(ratio);
    bounds::lemma_unit();
    bounds::lemma_in_unit(slope);
    bounds::lemma_small_wholes();
    bounds::lemma_decibels();
    lemma_pow2_pos(149);
    lemma_a_small_part();
    bounds::lemma_opposite(threshold);
    let n = level.units() - threshold.units();
    bounds::lemma_sum_bounds(level, threshold.opposite(), three);
    bounds::lemma_sum_bounds(level, threshold.opposite(), top);
    let over = level.difference(threshold);
    single::law_order_is_numeric(over, of(0xC040_0000));
    single::law_order_is_numeric(three, over);
    single::law_order_is_numeric(over, top);
    bounds::lemma_sum_error(level, threshold.opposite());
    let (u, s) = (over.units(), slope.units());
    assert(0 * w <= u * s && u * s <= (256 * w) * w) by (nonlinear_arith)
        requires
            0 <= u <= 256 * w,
            0 <= s <= w,
            w > 0,
    ;
    bounds::lemma_product_bounds(over, slope, zero);
    bounds::lemma_product_bounds(over, slope, top);
    let got = over.product(slope);
    single::law_order_is_numeric(zero, got);
    single::law_order_is_numeric(got, top);
    bounds::lemma_product_error(over, slope);
    let g = got.units();
    assert(t * (g * w - u * s) <= u * s + HIDDEN * w && t * (u * s - g * w) <= u * s + HIDDEN * w);
    lemma_what_is_left(n, u, s, g, r, w);
}

/// The least that matters next to a whole.
proof fn lemma_a_small_part()
    ensures
        0x0100_0000 * HIDDEN <= pow2(149),
{
    lemma2_to64();
    lemma2_to64_rest();
    lemma_pow2_pos(100);
    lemma_pow2_adds(49, 100);
}

/// What is left above the threshold, from what rounding leaves of each step.
proof fn lemma_what_is_left(n: int, u: int, s: int, g: int, r: int, w: int)
    requires
        0 < w,
        0x0100_0000 * HIDDEN <= w,
        3 * w <= n <= 256 * w,
        w <= r <= 64 * w,
        0 <= s <= w,
        0x0100_0000 * (u - n) <= n,
        0x0100_0000 * (n - u) <= n,
        0x0100_0000 * (g * w - u * s) <= u * s + HIDDEN * w,
        0x0100_0000 * (u * s - g * w) <= u * s + HIDDEN * w,
        0x0100_0000 * ((w - s) * r - w * w) <= 128 * (w * w),
        0x0100_0000 * (w * w - (w - s) * r) <= 128 * (w * w),
    ensures
        exact::close((n - g) * r, n * w, 512),
{
    let t = 0x0100_0000int;
    // First what is taken off, then what is left, both times a whole.
    assert(t * (u * s - n * s) <= n * w && t * (n * s - u * s) <= n * w && u * s <= 2 * (n * w))
        by (nonlinear_arith)
        requires
            t * (u - n) <= n,
            t * (n - u) <= n,
            t == 0x0100_0000,
            0 <= s <= w,
            0 <= n,
    ;
    assert(HIDDEN * w <= n * w) by (nonlinear_arith)
        requires
            HIDDEN <= n,
            0 < w,
    ;
    assert(t * (g * w - n * s) <= 4 * (n * w) && t * (n * s - g * w) <= 4 * (n * w));
    let (x, y) = ((n - g) * w, n * (w - s));
    assert(x == n * w - g * w && y == n * w - n * s) by (nonlinear_arith)
        requires
            x == (n - g) * w,
            y == n * (w - s),
    ;
    // Times the ratio.
    let e = n * w;
    assert(t * (x * r - y * r) <= 256 * (e * w) && t * (y * r - x * r) <= 256 * (e * w))
        by (nonlinear_arith)
        requires
            t * (x - y) <= 4 * e,
            t * (y - x) <= 4 * e,
            0 < r <= 64 * w,
            0 <= e,
            t == 0x0100_0000,
    ;
    let z = (w - s) * r;
    assert(y * r == n * z) by (nonlinear_arith)
        requires
            y == n * (w - s),
            z == (w - s) * r,
    ;
    assert(t * (n * z - e * w) <= 128 * (e * w) && t * (e * w - n * z) <= 128 * (e * w))
        by (nonlinear_arith)
        requires
            t * (z - w * w) <= 128 * (w * w),
            t * (w * w - z) <= 128 * (w * w),
            0 <= n,
            e == n * w,
            t == 0x0100_0000,
    ;
    let got = (n - g) * r;
    assert(x * r == got * w) by (nonlinear_arith)
        requires
            x == (n - g) * w,
            got == (n - g) * r,
    ;
    assert(0 <= e * w) by (nonlinear_arith)
        requires
            0 <= e,
            0 < w,
    ;
    assert(exact::close(got * w, e * w, 512));
    exact::lemma_close_over(got, e, 512, w);
}

/// Inside the knee the reduction is the slope's share of a parabola: a twelfth of the
/// square of how far the level is into it.
pub proof fn law_the_knee_is_a_parabola(level: Single, threshold: Single, slope: Single)
    requires
        level.finite(),
        threshold.finite(),
        level.difference(threshold).finite(),
        -2 * pow2(149) <= level.difference(threshold).units() < 3 * pow2(149),
        slope.finite(),
        pow2(129) <= slope.units() <= pow2(149),
    ensures
        ({
            let into = level.difference(threshold).units() + exact::whole(3);
            exact::close(
                compressor::wanted(level, threshold, slope).units() * 12 * pow2(149) * pow2(149),
                slope.units() * into * into,
                16,
            )
        }),
{
    let over = level.difference(threshold);
    let (w, t, zero) = (pow2(149) as int, 0x0100_0000int, of(0));
    let (one, three, six, twelve, top) = (
        of(0x3F80_0000),
        of(0x4040_0000),
        of(0x40C0_0000),
        of(0x4140_0000),
        of(0x4210_0000),
    );
    bounds::lemma_unit();
    bounds::lemma_small_wholes();
    bounds::lemma_decibels();
    lemma2_to64();
    lemma_pow2_pos(129);
    lemma_pow2_adds(20, 129);
    lemma_pow2_adds(29, 100);
    lemma_pow2_pos(100);
    single::law_order_is_numeric(over, of(0xC040_0000));
    single::law_order_is_numeric(three, over);
    let x = over.sum(three);
    let into = over.units() + 3 * w;
    bounds::lemma_sum_bounds(over, three, one);
    bounds::lemma_sum_bounds(over, three, six);
    single::law_order_is_numeric(one, x);
    single::law_order_is_numeric(x, six);
    bounds::lemma_sum_error(over, three);
    let (u, s) = (x.units(), slope.units());
    assert(exact::close(u, into, 1));
    let c = pow2(129) as int;
    assert(w == 0x0010_0000 * c);
    assert(s * u <= (6 * w) * w && s * u >= c * w && s * u >= 0 * w && s * u >= HIDDEN * w)
        by (nonlinear_arith)
        requires
            c <= s <= w,
            w <= u <= 6 * w,
            c >= HIDDEN,
            HIDDEN > 0,
    ;
    let small = exact::lemma_scaled_whole(1, -20);
    assert(bounds::over(-20, -149) == pow2(129));
    bounds::lemma_product_bounds(slope, x, six);
    bounds::lemma_product_bounds(slope, x, small);
    let p = slope.product(x);
    single::law_order_is_numeric(p, six);
    single::law_order_is_numeric(small, p);
    exact::lemma_product_close(slope, x);
    let v = p.units();
    assert(v * u <= (36 * w) * w && v * u >= c * w && v * u >= HIDDEN * w) by (nonlinear_arith)
        requires
            c <= v <= 6 * w,
            w <= u <= 6 * w,
            c >= HIDDEN,
            HIDDEN > 0,
    ;
    bounds::lemma_product_bounds(p, x, top);
    bounds::lemma_product_bounds(p, x, small);
    let q = p.product(x);
    single::law_order_is_numeric(q, top);
    single::law_order_is_numeric(small, q);
    exact::lemma_product_close(p, x);
    let y = q.units();
    assert(y * w <= (3 * w) * (12 * w) && y * w >= 0 * (12 * w) && y * w >= HIDDEN * (12 * w))
        by (nonlinear_arith)
        requires
            c <= y <= 36 * w,
            c >= 12 * HIDDEN,
            w > 0,
            HIDDEN > 0,
    ;
    bounds::lemma_quotient_bounds(q, twelve, three);
    bounds::lemma_quotient_bounds(q, twelve, zero);
    let got = q.quotient(twelve);
    single::law_order_is_numeric(got, three);
    exact::lemma_quotient_close(q, twelve);
    lemma_knee(got.units(), y, v, u, s, into, w);
}

/// The steps of the knee, put together.
proof fn lemma_knee(got: int, y: int, v: int, u: int, s: int, into: int, w: int)
    requires
        0 < w,
        0 <= s,
        0 <= u,
        0 <= into,
        0 <= v,
        0 <= y,
        exact::close(got * (12 * w), y * w, 2),
        exact::close(y * w, v * u, 2),
        exact::close(v * w, s * u, 2),
        exact::close(u, into, 1),
    ensures
        exact::close(got * 12 * w * w, s * into * into, 16),
{
    assert(0 <= v * u && 0 <= (s * u) * u && 0 <= (s * into) * into && 0 <= s * into && 0 <= (s
        * into) * u) by (nonlinear_arith)
        requires
            0 <= v,
            0 <= u,
            0 <= s,
            0 <= into,
    ;
    exact::lemma_close_chain(got * (12 * w), y * w, 2, v * u, 2);
    exact::lemma_close_times(got * (12 * w), v * u, 5, w);
    exact::lemma_close_times(v * w, s * u, 2, u);
    assert((v * u) * w == (v * w) * u && (got * (12 * w)) * w == got * 12 * w * w)
        by (nonlinear_arith);
    exact::lemma_close_chain(got * 12 * w * w, (v * w) * u, 5, (s * u) * u, 2);
    exact::lemma_close_times(u, into, 1, s * u);
    exact::lemma_close_times(u, into, 1, s * into);
    assert(u * (s * u) == (s * u) * u && into * (s * u) == u * (s * into) && into * (s * into) == (s
        * into) * into) by (nonlinear_arith);
    exact::lemma_close_chain((s * u) * u, u * (s * into), 1, (s * into) * into, 1);
    exact::lemma_close_chain(got * 12 * w * w, (s * u) * u, 8, (s * into) * into, 3);
    assert(12 * ((s * into) * into) <= 16 * ((s * into) * into));
}

/// A time in milliseconds is so many samples: a thousand times as many as the time
/// times the rate, where that makes a sample or more, and one where it does not.
pub proof fn law_a_compressor_keeps_its_times(time_ms: Single, sample_rate: Single)
    requires
        sound_laws::audible_rate(sample_rate),
        time_ms.finite(),
        pow2(129) <= time_ms.units() <= exact::whole(4096),
    ensures
        ({
            let n = compressor::time_constant(time_ms, sample_rate);
            &&& n.finite()
            &&& n.units() >= pow2(149)
            &&& n.units() == pow2(149) || exact::close(
                n.units() * 1000 * pow2(149),
                time_ms.units() * sample_rate.units(),
                16,
            )
        }),
{
    let (k, one, w) = (of(0x3A83_126F), of(0x3F80_0000), pow2(149) as int);
    let (m, r) = (time_ms.units(), sample_rate.units());
    bounds::lemma_unit();
    lemma2_to64();
    lemma2_to64_rest();
    lemma_a_thousandth();
    let v = k.units();
    lemma_pow2_pos(115);
    lemma_pow2_adds(34, 115);
    lemma_pow2_adds(14, 115);
    lemma_pow2_pos(91);
    lemma_pow2_adds(24, 91);
    let c = pow2(115) as int;
    let small = exact::lemma_scaled_whole(1, -34);
    let five = exact::lemma_scaled_whole(5, 0);
    let big = exact::lemma_scaled_whole(5, 20);
    lemma_pow2_adds(20, 149);
    assert(bounds::over(-34, -149) == pow2(115) && bounds::over(0, -149) == pow2(149)
        && bounds::over(20, -149) == pow2(169));
    assert(w == 0x4_0000_0000 * c && pow2(129) == 0x4000 * c && c >= HIDDEN);
    assert(m * v <= (5 * w) * w && m * v >= c * w && m * v >= HIDDEN * w) by (nonlinear_arith)
        requires
            0x4000 * c <= m <= 4096 * w,
            w <= 1001 * v,
            999 * v <= w,
            c >= HIDDEN,
            w > 0,
            HIDDEN > 0,
    ;
    bounds::lemma_product_bounds(time_ms, k, five);
    bounds::lemma_product_bounds(time_ms, k, small);
    let p = time_ms.product(k);
    single::law_order_is_numeric(p, five);
    single::law_order_is_numeric(small, p);
    exact::lemma_product_close(time_ms, k);
    let u = p.units();
    assert(u * r <= (5 * (0x0010_0000 * w)) * w && u * r >= 0 * w && u * r >= HIDDEN * w)
        by (nonlinear_arith)
        requires
            c <= u <= 5 * w,
            1000 * w <= r <= 0x0010_0000 * w,
            c >= HIDDEN,
            w > 0,
            HIDDEN > 0,
    ;
    bounds::lemma_product_bounds(p, sample_rate, big);
    bounds::lemma_product_bounds(p, sample_rate, of(0));
    let q = p.product(sample_rate);
    single::law_order_is_numeric(q, one);
    single::law_order_is_numeric(one, q);
    exact::lemma_product_close(p, sample_rate);
    let n = q.units();
    // n * w is u * r, u * w is m * v, and v * 1000 is a whole.
    exact::lemma_close_times(n * w, u * r, 2, 1000 * w);
    exact::lemma_close_times(u * w, m * v, 2, 1000 * r);
    exact::lemma_close_times(v * 1000, w, 2, m * r);
    assert((n * w) * (1000 * w) == (n * 1000 * w) * w && (u * r) * (1000 * w) == (u * w) * (1000
        * r) && (m * v) * (1000 * r) == (v * 1000) * (m * r) && w * (m * r) == (m * r) * w)
        by (nonlinear_arith);
    assert(0 <= m * r && 0 <= (m * r) * w) by (nonlinear_arith)
        requires
            0 <= m,
            0 <= r,
            0 < w,
    ;
    exact::lemma_close_chain((u * w) * (1000 * r), (m * v) * (1000 * r), 2, (m * r) * w, 2);
    exact::lemma_close_chain((n * 1000 * w) * w, (u * w) * (1000 * r), 2, (m * r) * w, 5);
    exact::lemma_close_over(n * 1000 * w, m * r, 8, w);
    assert(8 * (m * r) <= 16 * (m * r));
}

proof fn lemma_a_thousandth()
    ensures
        of(0x3A83_126F).finite(),
        exact::close(of(0x3A83_126F).units() * 1000, pow2(149) as int, 2),
        pow2(149) <= 1001 * of(0x3A83_126F).units(),
        999 * of(0x3A83_126F).units() <= pow2(149),
{
    lemma2_to64();
    lemma2_to64_rest();
    lemma_pow2_pos(116);
    lemma_pow2_adds(33, 116);
    assert(0x3A83_126Fint / 0x0080_0000int == 117 && 0x3A83_126Fint % 0x0080_0000int == 0x0003_126F);
    assert(single::magnitude_units(0x3A83_126F) == 0x0083_126F * pow2(116));
}

// --- The kit ---

/// Panning a pad turns its far side down by as much as it is panned, and mirrors.
pub proof fn law_a_pan_turns_the_far_side_down(pan: Single)
    requires
        bounds::in_unit(pan),
    ensures
        kit::side_gains(pan).1 == of(0x3F80_0000),
        bounds::rounded(kit::side_gains(pan).0, pow2(149) - pan.units()),
        kit::side_gains(pan.opposite()).0 == of(0x3F80_0000),
        bounds::rounded(kit::side_gains(pan.opposite()).1, pow2(149) - pan.units()),
{
    let one = of(0x3F80_0000);
    bounds::lemma_unit();
    bounds::lemma_in_unit(pan);
    bounds::lemma_opposite(pan);
    bounds::lemma_opposite(pan.opposite());
    bounds::lemma_unit_rest(pan);
    bounds::lemma_in_unit(one.difference(pan));
    bounds::lemma_sum_error(one, pan.opposite());
    bounds::lemma_sum_bounds(one, pan, one);
    bounds::lemma_sum_bounds(one, pan.opposite(), one);
    assert(pan.opposite().opposite() == pan);
    lemma_no_smaller(one.sum(pan), one);
    lemma_no_smaller(one, one.difference(pan));
}

/// The smaller of two numbers in order.
proof fn lemma_no_smaller(big: Single, small: Single)
    requires
        small.at_most(big),
    ensures
        big.smaller(small).key() == small.key(),
        small.key() != 0 ==> big.smaller(small) == small,
{
    if small.key() == big.key() && small.key() != 0 {
        exact::lemma_one_key(small, big);
    }
}

/// Every strike among the orders is a hit that lands, as loud as the hit times its pad's
/// level, and with its pad's tune and decay.
pub proof fn law_a_strike_is_a_hit_on_its_pad(
    struck: Seq<bool>,
    p: Params,
    hits: Seq<Single>,
    n: int,
    k: int,
)
    requires
        0 <= n <= PAD_COUNT,
        0 <= k < rack::strike_orders(struck, p, hits, n).1.len(),
    ensures
        rack::strike_orders(struck, p, hits, n).1[k] matches Order::StrikePad {
            pad,
            velocity,
            tune,
            decay,
        } ==> {
            let i = pad as int;
            &&& 0 <= i < n
            &&& !p.pad_mute[i]
            &&& tune == p.pad_tune[i]
            &&& decay == p.pad_decay[i]
            &&& (bounds::in_unit(hits[i]) && bounds::in_unit(p.pad_level[i])) ==> {
                &&& velocity.finite()
                &&& 0 < hits[i].units()
                &&& velocity.units() <= hits[i].units()
                &&& velocity.units() <= p.pad_level[i].units()
                &&& p.pad_level[i].units() == pow2(149) ==> velocity == hits[i]
                &&& hits[i].units() == pow2(149) ==> velocity.units() == p.pad_level[i].units()
            }
        },
    decreases n,
{
    if n > 0 {
        let (s, o) = rack::strike_orders(struck, p, hits, n - 1);
        let cuts = rack::choke_orders(s, n - 1, PAD_COUNT as int);
        if k < o.len() {
            law_a_strike_is_a_hit_on_its_pad(struck, p, hits, n - 1, k);
        } else if rack::lands(p, hits, n - 1) && k < o.len() + cuts.len() {
            lemma_cuts_only(s, n - 1, PAD_COUNT as int, k - o.len());
        } else {
            let (h, v) = (hits[n - 1], p.pad_level[n - 1]);
            if bounds::in_unit(h) && bounds::in_unit(v) {
                lemma_at_level(h, v);
            }
        }
    }
}

/// A part of a whole, and the whole of a part.
proof fn lemma_at_level(h: Single, v: Single)
    requires
        bounds::in_unit(h),
        bounds::in_unit(v),
        !h.at_most(of(0)),
    ensures
        ({
            let x = h.product(v);
            &&& x.finite()
            &&& 0 < h.units()
            &&& x.units() <= h.units()
            &&& x.units() <= v.units()
            &&& v.units() == pow2(149) ==> x == h
            &&& h.units() == pow2(149) ==> x.units() == v.units()
        }),
{
    let (one, w) = (of(0x3F80_0000), pow2(149) as int);
    bounds::lemma_unit();
    bounds::lemma_in_unit(h);
    bounds::lemma_in_unit(v);
    single::law_order_is_numeric(h, of(0));
    bounds::lemma_unit_product(h, v);
    bounds::lemma_in_unit(h.product(v));
    let x = h.product(v);
    single::law_order_is_numeric(x, h);
    single::law_order_is_numeric(x, v);
    if v.units() == w {
        exact::lemma_exact_product(h, v, h);
    }
    if h.units() == w {
        assert(v.units() * w == h.units() * v.units()) by (nonlinear_arith)
            requires
                h.units() == w,
        ;
        exact::lemma_exact_product(h, v, v);
    }
}

/// Cuts are nothing but cuts, of pads that were struck.
proof fn lemma_cuts_only(struck: Seq<bool>, index: int, n: int, k: int)
    requires
        0 <= k < rack::choke_orders(struck, index, n).len(),
        0 <= n <= PAD_COUNT,
    ensures
        rack::choke_orders(struck, index, n)[k] matches Order::SilencePad { pad } && pad < n
            && pad != index && struck[pad as int],
    decreases n,
{
    if n > 0 {
        let before = rack::choke_orders(struck, index, n - 1);
        if k < before.len() {
            lemma_cuts_only(struck, index, n - 1, k);
        }
    }
}

/// Every hit that lands is among the orders, and its pad counts as struck.
pub proof fn law_every_hit_is_struck(
    struck: Seq<bool>,
    p: Params,
    hits: Seq<Single>,
    n: int,
    i: int,
)
    requires
        0 <= i < n <= PAD_COUNT,
        struck.len() == PAD_COUNT,
        of(0).below(hits[i]),
        !p.pad_mute[i],
    ensures
        rack::strike_orders(struck, p, hits, n).0[i],
        exists|k: int|
            0 <= k < rack::strike_orders(struck, p, hits, n).1.len() && (#[trigger] rack::strike_orders(
                struck,
                p,
                hits,
                n,
            ).1[k] matches Order::StrikePad { pad, .. } && pad == i),
    decreases n,
{
    lemma_struck_length(struck, p, hits, n - 1);
    let before = rack::strike_orders(struck, p, hits, n - 1);
    let after = rack::strike_orders(struck, p, hits, n);
    if i < n - 1 {
        law_every_hit_is_struck(struck, p, hits, n - 1, i);
        let k = choose|k: int|
            0 <= k < before.1.len() && (#[trigger] before.1[k] matches Order::StrikePad { pad, .. }
                && pad == i);
        assert(after.1[k] == before.1[k]);
    } else {
        let k = after.1.len() - 1;
        assert(after.1[k] is StrikePad);
    }
}

proof fn lemma_struck_length(struck: Seq<bool>, p: Params, hits: Seq<Single>, n: int)
    requires
        struck.len() == PAD_COUNT,
        n <= PAD_COUNT,
    ensures
        rack::strike_orders(struck, p, hits, n).0.len() == PAD_COUNT,
    decreases n,
{
    if n > 0 {
        lemma_struck_length(struck, p, hits, n - 1);
    }
}

/// A send is panned like its pad: wide open it is what the pad has on that side, and shut
/// it is nothing.
pub proof fn law_a_send_is_panned_like_its_pad(p: Params, left: bool, i: int)
    requires
        0 <= i < PAD_COUNT,
        bounds::in_unit(p.pad_pan[i]) || bounds::in_unit(p.pad_pan[i].opposite()),
    ensures
        p.pad_send[i] == of(0x3F80_0000) ==> kit::bus_gains(p, left, true)[i] == kit::bus_gains(
            p,
            left,
            false,
        )[i],
        p.pad_send[i].magnitude() == 0 ==> kit::bus_gains(p, left, true)[i].magnitude() == 0,
        kit::bus_gains(p, left, false)[i] == (if left {
            kit::side_gains(p.pad_pan[i]).0
        } else {
            kit::side_gains(p.pad_pan[i]).1
        }),
{
    let pan = p.pad_pan[i];
    let g = kit::bus_gains(p, left, false)[i];
    bounds::lemma_unit();
    if bounds::in_unit(pan) {
        law_a_pan_turns_the_far_side_down(pan);
    } else {
        law_a_pan_turns_the_far_side_down(pan.opposite());
        assert(pan.opposite().opposite() == pan);
    }
    exact::lemma_times_one(g);
    if p.pad_send[i].magnitude() == 0 {
        bounds::lemma_product_with_zero(g, p.pad_send[i]);
    }
}

/// The kick's own bus is the first pad and nothing else, at the kit's level.
pub proof fn law_the_kick_bus_is_the_first_pad<F: Fn(Curve, Single) -> Single>(
    f: F,
    voices: Seq<DrumVoice>,
    others: Seq<DrumVoice>,
    level: Single,
    count: int,
    i: int,
)
    requires
        0 <= i < count,
        voices.len() == PAD_COUNT,
        voices[0] == others[0],
        !voices[0].played(i).heard(f).nan(),
    ensures
        kit::kick_bus(f, voices, level, count) == kit::kick_bus(f, others, level, count),
        kit::kick_bus(f, voices, of(0x3F80_0000), count)[i] == voices[0].played(i).heard(f),
{
    exact::lemma_times_one(voices[0].played(i).heard(f));
    assert(kit::kick_bus(f, voices, level, count) =~= kit::kick_bus(f, others, level, count));
}

/// A drum is its body and its stick: without the stick it is the tone at the body's level,
/// and without the body the noise at the stick's.
pub proof fn law_a_drum_is_its_body_and_its_stick(v: DrumVoice, sine: Single)
    requires
        bounds::in_bipolar(sine),
    ensures
        v.click.value == of(0) && v.amp.value == of(0x3F80_0000) ==> v.sample(sine).units()
            == sine.units(),
        v.amp.value == of(0) && v.click.value == of(0x3F80_0000) ==> v.sample(sine).units() == (
        Single { bits: rng::bipolar_bits((v.rng.next_word() >> 40) as int) as u32 }).units(),
        v.amp.value == of(0) && v.click.value == of(0) ==> v.sample(sine).units() == 0,
{
    let noise = Single { bits: rng::bipolar_bits((v.rng.next_word() >> 40) as int) as u32 };
    let (zero, one) = (of(0), of(0x3F80_0000));
    bounds::lemma_unit();
    lemma_noise_is_finite(v);
    bounds::lemma_in_bipolar(sine);
    exact::lemma_times_one(sine);
    exact::lemma_times_one(noise);
    bounds::lemma_product_with_zero(sine, zero);
    bounds::lemma_product_with_zero(noise, zero);
    let (a, b) = (sine.product(zero), noise.product(zero));
    lemma_no_units(a);
    lemma_no_units(b);
    exact::lemma_exact_sum(sine, b, sine);
    exact::lemma_exact_sum(a, noise, noise);
    exact::lemma_exact_sum(a, b, zero);
}

/// Noise is a number.
proof fn lemma_noise_is_finite(v: DrumVoice)
    ensures
        (Single { bits: rng::bipolar_bits((v.rng.next_word() >> 40) as int) as u32 }).finite(),
{
    let w = v.rng.next_word();
    assert(w >> 40 < 0x0100_0000) by (bit_vector);
    let k = (w >> 40) as int;
    if k >= 0x0080_0000 {
        single::lemma_ratio_at_most_one((k - 0x0080_0000) as nat, 0x0080_0000);
    } else {
        single::lemma_ratio_at_most_one((0x0080_0000 - k) as nat, 0x0080_0000);
    }
}

proof fn lemma_no_units(x: Single)
    requires
        x.finite(),
        x.magnitude() == 0,
    ensures
        x.units() == 0,
{
    bounds::lemma_unit();
    single::law_order_is_numeric(x, of(0));
    single::law_order_is_numeric(of(0), x);
}

/// A drum's body goes round once in a turn: the angle that its sine is taken at is its
/// phase's share of a whole turn.
pub proof fn law_a_drum_goes_round_once_a_turn<F: Fn(Curve, Single) -> Single>(f: F, v: DrumVoice)
    requires
        v.active(),
        bounds::in_unit(v.turned().phase),
        pow2(126) <= v.turned().phase.units(),
    ensures
        exists|angle: Single|
            {
                &&& v.heard(f) == v.turned().sample(#[trigger] curve::at(f, Curve::Sine, angle))
                &&& exact::close(angle.units() * 113, v.turned().phase.units() * 710, 8)
            },
{
    panel_laws::lemma_share_of_a_turn(v.turned().phase);
    assert(v.heard(f) == v.turned().sample(
        curve::at(f, Curve::Sine, v.turned().phase.product(of(0x40C9_0FDB))),
    ));
}

// --- The drive ---

/// A blocker lets a jump through as it is, and nothing of what stays where it was.
pub proof fn law_a_blocker_passes_what_moves(d: DcBlocker, x: Single)
    requires
        x.finite(),
        d.x1.finite(),
        d.coef.finite(),
        d.y1.magnitude() == 0,
    ensures
        d.x1.units() == 0 ==> d.passed(x).units() == x.units(),
        d.x1 == x ==> d.passed(x).units() == 0,
        d.after(x).x1 == x,
        d.after(x).y1 == d.passed(x),
{
    let rest = d.coef.product(d.y1);
    bounds::lemma_unit();
    bounds::lemma_product_with_zero(d.coef, d.y1);
    lemma_no_units(rest);
    bounds::lemma_opposite(d.x1);
    if d.x1.units() == 0 {
        exact::lemma_exact_sum(x, d.x1.opposite(), x);
        exact::lemma_exact_sum(x.difference(d.x1), rest, x);
    }
    if d.x1 == x {
        exact::lemma_exact_sum(x, x.opposite(), of(0));
        exact::lemma_exact_sum(x.difference(x), rest, of(0));
    }
}

/// Short of its limits the clipper takes off a third of the cube.
pub proof fn law_the_clipper_takes_off_a_third_of_the_cube(x: Single)
    requires
        x.finite(),
        pow2(129) <= x.units() < pow2(149),
    ensures
        ({
            let (u, w) = (x.units(), pow2(149) as int);
            exact::close(output::clipped(x).units() * 3 * w * w, 3 * u * w * w - u * u * u, 16)
        }),
{
    let (u, w) = (x.units(), pow2(149) as int);
    let (one, zero, three) = (of(0x3F80_0000), of(0), of(0x4040_0000));
    bounds::lemma_unit();
    bounds::lemma_small_wholes();
    lemma2_to64();
    lemma2_to64_rest();
    lemma_pow2_pos(129);
    lemma_pow2_adds(20, 129);
    lemma_pow2_pos(89);
    lemma_pow2_adds(40, 89);
    lemma_pow2_pos(66);
    lemma_pow2_adds(23, 66);
    let (c, g) = (pow2(129) as int, pow2(89) as int);
    assert(w == 0x0010_0000 * c && c == 0x0100_0000_0000 * g && g >= HIDDEN);
    single::law_order_is_numeric(x, of(0xBF80_0000));
    single::law_order_is_numeric(one, x);
    bounds::lemma_opposite(one);
    assert(one.opposite() == of(0xBF80_0000));
    let low = exact::lemma_scaled_whole(1, -40);
    lemma_pow2_adds(40, 109);
    lemma_pow2_pos(109);
    lemma_pow2_adds(20, 109);
    lemma_pow2_adds(20, 89);
    let h = pow2(109) as int;
    assert(bounds::over(-40, -149) == pow2(109));
    assert(c == 0x0010_0000 * h && h == 0x0010_0000 * g);
    assert(u * u <= w * w && u * u >= h * w && u * u >= HIDDEN * w) by (nonlinear_arith)
        requires
            c <= u <= w,
            w == 0x0010_0000 * c,
            c == 0x0010_0000 * h,
            h >= HIDDEN,
            HIDDEN > 0,
    ;
    bounds::lemma_product_bounds(x, x, one);
    bounds::lemma_product_bounds(x, x, low);
    let p = x.product(x);
    single::law_order_is_numeric(p, one);
    single::law_order_is_numeric(low, p);
    exact::lemma_product_close(x, x);
    let v = p.units();
    let least = exact::lemma_scaled_whole(1, -60);
    assert(bounds::over(-60, -149) == pow2(89));
    assert(v * u <= w * w && v * u >= g * w && v * u >= HIDDEN * w) by (nonlinear_arith)
        requires
            h <= v <= w,
            c <= u <= w,
            w == 0x0010_0000 * c,
            h == 0x0010_0000 * g,
            g >= HIDDEN,
            HIDDEN > 0,
    ;
    bounds::lemma_product_bounds(p, x, one);
    bounds::lemma_product_bounds(p, x, least);
    let q = p.product(x);
    single::law_order_is_numeric(q, one);
    single::law_order_is_numeric(least, q);
    exact::lemma_product_close(p, x);
    let y = q.units();
    lemma_pow2_adds(30, 59);
    lemma_pow2_pos(59);
    assert(y * w <= w * (3 * w) && y * w >= 0 * (3 * w) && y * w >= HIDDEN * (3 * w))
        by (nonlinear_arith)
        requires
            g <= y <= w,
            g >= 3 * HIDDEN,
            w > 0,
            HIDDEN > 0,
    ;
    bounds::lemma_quotient_bounds(q, three, one);
    bounds::lemma_quotient_bounds(q, three, zero);
    exact::lemma_quotient_close(q, three);
    let r = q.quotient(three);
    bounds::lemma_opposite(r);
    bounds::lemma_in_unit(r);
    let z = r.units();
    // Three of what is taken off are the cube.
    exact::lemma_close_times(z * (3 * w), y * w, 2, w);
    exact::lemma_close_times(y * w, v * u, 2, w);
    exact::lemma_close_times(v * w, u * u, 2, u);
    let cube = u * u * u;
    assert((v * u) * w == (v * w) * u && (u * u) * u == cube && (z * (3 * w)) * w == 3 * (z * w * w)
        && 0 <= (v * w) * u && 0 <= cube && cube <= u * w * w && w * w > 0) by (nonlinear_arith)
        requires
            0 <= v,
            0 < u <= w,
            cube == u * u * u,
    ;
    exact::lemma_close_chain((y * w) * w, (v * w) * u, 2, cube, 2);
    exact::lemma_close_chain(3 * (z * w * w), (y * w) * w, 2, cube, 5);
    let k = w * w;
    assert(z * w * w == z * k && u * w * w == u * k) by (nonlinear_arith)
        requires
            k == w * w,
    ;
    lemma_what_the_clipper_leaves(x, r, cube, k);
    let got = output::clipped(x).units();
    assert(got * 3 * w * w == 3 * (got * k) && 3 * u * w * w == 3 * (u * k)) by (nonlinear_arith)
        requires
            k == w * w,
    ;
}

/// What is left once a part has been taken off.
proof fn lemma_what_the_clipper_leaves(x: Single, r: Single, cube: int, k: int)
    requires
        x.finite(),
        r.finite(),
        0 < x.units() <= pow2(149),
        0 <= r.units() <= pow2(149),
        k > 0,
        0 <= cube <= x.units() * k,
        exact::close(3 * (r.units() * k), cube, 8),
    ensures
        x.difference(r).finite(),
        exact::close(3 * (x.difference(r).units() * k), 3 * (x.units() * k) - cube, 16),
{
    let (u, z, w, t) = (x.units(), r.units(), pow2(149) as int, 0x0100_0000int);
    let (one, zero) = (of(0x3F80_0000), of(0));
    bounds::lemma_unit();
    bounds::lemma_opposite(r);
    assert(z <= u) by (nonlinear_arith)
        requires
            t * (3 * (z * k) - cube) <= 8 * cube,
            cube <= u * k,
            0 <= cube,
            k > 0,
            t == 0x0100_0000,
    ;
    bounds::lemma_sum_bounds(x, r.opposite(), one);
    bounds::lemma_sum_bounds(x, r.opposite(), zero);
    let d = x.difference(r);
    bounds::lemma_in_unit(d);
    bounds::lemma_sum_error(x, r.opposite());
    let g = d.units();
    let (a, b, e) = (g * k, (u - z) * k, 3 * (u * k) - cube);
    assert(t * (a - b) <= b && t * (b - a) <= b && b == u * k - z * k && b <= u * k && 0 <= b)
        by (nonlinear_arith)
        requires
            t * (g - (u - z)) <= u - z,
            t * ((u - z) - g) <= u - z,
            a == g * k,
            b == (u - z) * k,
            k > 0,
            0 <= z <= u,
    ;
    assert(e >= 2 * (u * k));
    assert(t * (3 * a - e) <= 16 * e && t * (e - 3 * a) <= 16 * e);
}

// --- The tail ---

/// A bigger room rings longer, from about a fifth of its way kept in the smallest to
/// nineteen twentieths in the largest.
pub proof fn law_a_bigger_room_rings_longer(small: Single, big: Single)
    requires
        bounds::in_unit(small),
        bounds::in_unit(big),
        small.units() <= big.units(),
    ensures
        reverb::decay_of(small).at_most(reverb::decay_of(big)),
        small.units() == 0 ==> 10 * reverb::decay_of(small).units() < 3 * pow2(149),
        big.units() == pow2(149) ==> 10 * reverb::decay_of(big).units() > 9 * pow2(149),
{
    let (fifth, rest, one, zero) = (
        of(0x3E4C_CCCD),
        of(0x3F40_0000),
        of(0x3F80_0000),
        of(0),
    );
    let (w, u, v) = (pow2(149) as int, small.units(), big.units());
    bounds::lemma_unit();
    bounds::lemma_velocities();
    bounds::lemma_in_unit(small);
    bounds::lemma_in_unit(big);
    lemma_a_fifth();
    lemma_pow2_pos(149);
    assert(bounds::in_unit(rest));
    bounds::lemma_unit_product(small, rest);
    bounds::lemma_unit_product(big, rest);
    let (a, b) = (small.product(rest), big.product(rest));
    bounds::lemma_in_unit(a);
    bounds::lemma_in_unit(b);
    let k = rest.units();
    assert(u * k <= v * k) by (nonlinear_arith)
        requires
            u <= v,
            k >= 0,
    ;
    bounds::lemma_size(small);
    bounds::lemma_size(big);
    bounds::lemma_size(rest);
    bounds::lemma_products_ordered(small, rest, big, rest);
    single::law_order_is_numeric(a, b);
    bounds::lemma_size(a);
    bounds::lemma_size(b);
    assert(a.units() <= b.units()) by {
        bounds::lemma_product_bounds(small, rest, b);
        bounds::lemma_product_bounds(small, rest, zero);
        bounds::lemma_product_bounds(big, rest, zero);
        if a.key() > b.key() {
            single::law_order_is_numeric(b, a);
        }
    }
    bounds::lemma_sums_ordered(fifth, a, fifth, b);
    if u == 0 {
        assert(0 * w == u * k) by (nonlinear_arith)
            requires
                u == 0,
        ;
        exact::lemma_exact_product(small, rest, zero);
        exact::lemma_exact_sum(fifth, a, fifth);
    }
    if v == w {
        assert(k * w == v * k) by (nonlinear_arith)
            requires
                v == w,
        ;
        exact::lemma_exact_product(big, rest, rest);
        bounds::lemma_sum_bounds(fifth, b, one);
        bounds::lemma_sum_bounds(fifth, b, zero);
        bounds::lemma_in_unit(fifth.sum(b));
        bounds::lemma_sum_error(fifth, b);
    }
}

proof fn lemma_a_fifth()
    ensures
        of(0x3E4C_CCCD).finite(),
        19 * pow2(149) < 100 * of(0x3E4C_CCCD).units() < 21 * pow2(149),
{
    lemma2_to64();
    lemma_pow2_pos(123);
    lemma_pow2_adds(26, 123);
    assert(0x3E4C_CCCDint / 0x0080_0000int == 124 && 0x3E4C_CCCDint % 0x0080_0000int == 0x004C_CCCD);
    assert(single::magnitude_units(0x3E4C_CCCD) == 0x00CC_CCCD * pow2(123));
}

// --- Faders ---

/// A bus at full level is the bus: the bass as it comes, and any bus tapped for a send.
pub proof fn law_a_fader_at_the_top_changes_nothing(bus: Seq<Single>, i: int)
    requires
        0 <= i < bus.len(),
        bus[i].finite(),
    ensures
        mixer::bass_signal(bus, of(0x3F80_0000))[i] == bus[i],
        output::levelled(bus, of(0x3F80_0000))[i] == bus[i],
        output::finished(bus, of(0x3F80_0000))[i] == output::legal(bus[i]),
{
    exact::lemma_times_one(bus[i]);
}

/// A fader halfway halves what it lets through.
pub proof fn law_a_fader_halfway_lets_half_through(bus: Seq<Single>, i: int, k: int)
    requires
        0 <= i < bus.len(),
        bus[i].finite(),
        0 < k < 0x0100_0000,
        0x0001_0000 * bus[i].units() == exact::whole(k),
    ensures
        2 * mixer::bass_signal(bus, of(0x3F00_0000))[i].units() == bus[i].units(),
        2 * output::levelled(bus, of(0x3F00_0000))[i].units() == bus[i].units(),
{
    let (half, x, w) = (of(0x3F00_0000), bus[i], pow2(149) as int);
    bounds::lemma_small_wholes();
    lemma2_to64();
    lemma_pow2_adds(17, 132);
    let y = exact::lemma_scaled_whole(k, -17);
    assert(bounds::over(-17, -149) == pow2(132));
    let (c, u, v, h) = (pow2(132) as int, x.units(), y.units(), half.units());
    assert(k * w == 0x0002_0000 * (k * c)) by (nonlinear_arith)
        requires
            w == 0x0002_0000 * c,
    ;
    assert(2 * v == u);
    assert(v * w == u * h) by (nonlinear_arith)
        requires
            2 * v == u,
            2 * h == w,
    ;
    exact::lemma_exact_product(x, half, y);
}

/// Each fader moves its own bus: two desks with the same fader and insert on a bus have
/// the same on it, whatever the other faders do.
pub proof fn law_each_fader_moves_its_own_bus<F: Fn(Curve, Single) -> Single>(
    f: F,
    a: Mixer,
    b: Mixer,
    block: Seq<Single>,
    drums: Option<&DrumBuses>,
    p: Params,
    q: Params,
)
    ensures
        (a.synth_gain == b.synth_gain && a.dc == b.dc && a.comp_synth == b.comp_synth && p.drive
            == q.drive && p.comp_synth == q.comp_synth) ==> a.synth_bus(f, block, drums, p)
            == b.synth_bus(f, block, drums, q),
        (a.bass_gain == b.bass_gain && a.comp_bass == b.comp_bass && p.comp_bass == q.comp_bass)
            ==> a.bass_bus(f, block, drums, p) == b.bass_bus(f, block, drums, q),
{
}

/// The sides of the drums stay on their sides, and their sends in the sends: what no
/// compressor hears of them is heard where it was panned and nowhere else.
pub proof fn law_the_drums_stay_on_their_sides<F: Fn(Curve, Single) -> Single>(
    f: F,
    m: Mixer,
    block: Seq<Single>,
    bass: Option<Seq<Single>>,
    one: DrumBuses,
    other: DrumBuses,
    p: Params,
)
    requires
        p.comp_synth.sidechain == SidechainSource::Off,
        p.comp_bass.sidechain == SidechainSource::Off,
    ensures
        one.dry_l@ == other.dry_l@ ==> m.mixed(f, block, bass, Some(&one), p).left == m.mixed(
            f,
            block,
            bass,
            Some(&other),
            p,
        ).left,
        one.dry_r@ == other.dry_r@ ==> m.mixed(f, block, bass, Some(&one), p).right == m.mixed(
            f,
            block,
            bass,
            Some(&other),
            p,
        ).right,
        one.send_l@ == other.send_l@ ==> m.mixed(f, block, bass, Some(&one), p).send_l == m.mixed(
            f,
            block,
            bass,
            Some(&other),
            p,
        ).send_l,
        one.send_r@ == other.send_r@ ==> m.mixed(f, block, bass, Some(&one), p).send_r == m.mixed(
            f,
            block,
            bass,
            Some(&other),
            p,
        ).send_r,
{
}

/// The kick keys a compressor alone, and the drum bus with both of its sides: what the
/// rest of the kit plays makes no difference to the first.
pub proof fn law_a_key_is_what_it_is_called(
    one: DrumBuses,
    other: DrumBuses,
    count: nat,
    i: int,
)
    requires
        one.kick@ == other.kick@,
        one.kick@.len() >= count,
        0 <= i < count,
    ensures
        mixer::key(SidechainSource::Off, Some(&one), count) is None,
        mixer::key(SidechainSource::Kick, Some(&one), count) == mixer::key(
            SidechainSource::Kick,
            Some(&other),
            count,
        ),
        mixer::key(SidechainSource::Kick, Some(&one), count)->0[i] == one.kick@[i],
        (one.dry_l@[i] == one.dry_r@[i] && bounds::in_unit(one.dry_l@[i])) ==> mixer::key(
            SidechainSource::DrumBus,
            Some(&one),
            count,
        )->0[i].units() == one.dry_l@[i].units(),
{
    let x = one.dry_l@[i];
    if bounds::in_unit(x) {
        let (half, w) = (of(0x3F00_0000), pow2(149) as int);
        bounds::lemma_in_unit(x);
        bounds::lemma_small_wholes();
        lemma_pow2_pos(149);
        bounds::lemma_doubled(x);
        let y = x.sum(x);
        let (u, v, h) = (x.units(), y.units(), half.units());
        assert(u * w == v * h) by (nonlinear_arith)
            requires
                v == 2 * u,
                2 * h == w,
        ;
        exact::lemma_exact_product(y, half, x);
    }
}

} // verus!
