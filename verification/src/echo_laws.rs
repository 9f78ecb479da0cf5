//! What the delay does to the sound: how long its repeats take, when they come, and where.

use crate::arith::Format;
use crate::bounds;
use crate::delay;
use crate::delay::{Echo, EchoSetting, Echoes, NoteDivision};
use crate::exact;
use crate::line;
use crate::params::{of, Params};
use crate::reverb;
use crate::single;
use crate::single::{Single, HIDDEN};
use crate::sound_laws;
use vstd::arithmetic::power2::*;
use vstd::prelude::*;

verus! {

// --- Lengths ---

/// Whether one division lasts so many times as long as another, as a fraction.
pub open spec fn lasts(a: NoteDivision, times: nat, over: nat, b: NoteDivision) -> bool {
    a.fraction().0 * b.fraction().1 * over == b.fraction().0 * a.fraction().1 * times
}

/// The divisions are what they are called: each plain one half of the one before, a dotted
/// one half as long again, and three of a triplet in the time of two. A quarter is a beat.
pub proof fn law_the_divisions_are_what_they_are_called()
    ensures
        NoteDivision::Quarter.fraction().0 == NoteDivision::Quarter.fraction().1,
        lasts(NoteDivision::Whole, 2, 1, NoteDivision::Half),
        lasts(NoteDivision::Half, 2, 1, NoteDivision::Quarter),
        lasts(NoteDivision::Quarter, 2, 1, NoteDivision::Eighth),
        lasts(NoteDivision::Eighth, 2, 1, NoteDivision::Sixteenth),
        lasts(NoteDivision::QuarterDot, 3, 2, NoteDivision::Quarter),
        lasts(NoteDivision::EighthDot, 3, 2, NoteDivision::Eighth),
        lasts(NoteDivision::EighthTriplet, 2, 3, NoteDivision::Eighth),
        lasts(NoteDivision::SixteenthTriplet, 2, 3, NoteDivision::Sixteenth),
{
}

/// A division's length in beats is its fraction.
proof fn lemma_length(division: NoteDivision)
    ensures
        ({
            let (n, d) = division.fraction();
            let x = division.length();
            &&& x.finite()
            &&& exact::close(x.units() * d, exact::whole(n as int), 2)
            &&& pow2(149) <= 8 * x.units()
            &&& x.units() <= 5 * pow2(149)
        }),
{
    let (n, d) = division.fraction();
    let (u, w) = (division.length().units(), pow2(149) as int);
    bounds::lemma_ratio_error(n, d);
    lemma2_to64();
    lemma2_to64_rest();
    lemma_pow2_pos(100);
    lemma_pow2_adds(49, 100);
    assert(w >= 0x0100_0000 * HIDDEN);
    assert(1 <= n <= 4 && 1 <= d <= 6 && n <= 4 * d && d <= 6 * n);
    assert(0x0080_0000 * d <= n * w) by (nonlinear_arith)
        requires
            w >= 0x0100_0000 * 0x0080_0000int,
            1 <= n,
            1 <= d <= 6,
    ;
    assert(w <= 8 * u && u <= 5 * w) by (nonlinear_arith)
        requires
            0x0100_0000 * (u * d - n * w) <= 2 * (n * w),
            0x0100_0000 * (n * w - u * d) <= 2 * (n * w),
            1 <= d <= 6,
            n <= 4 * d,
            d <= 6 * n,
            w > 0,
    ;
}

/// A synced delay keeps time: a repeat's seconds, times the tempo, are sixty times its
/// length in beats, unless that is more than the two seconds it is held to.
pub proof fn law_a_synced_delay_keeps_time(p: Params, tempo_bpm: Single)
    requires
        p.delay_sync,
        tempo_bpm.finite(),
        exact::whole(20) <= tempo_bpm.units() <= exact::whole(300),
    ensures
        ({
            let (n, d) = p.delay_division.fraction();
            let s = delay::wanted_seconds(p, tempo_bpm);
            let (got, want) = (
                s.units() * tempo_bpm.units() * d,
                exact::whole(exact::whole((60 * n) as int)),
            );
            &&& s.finite()
            &&& exact::close(got, want, 16) || (s.units() == exact::whole(2) && got <= 2 * want)
        }),
{
    let (n, d) = p.delay_division.fraction();
    let (w, b) = (pow2(149) as int, tempo_bpm.units());
    let x = p.delay_division.length();
    let sixty = of(0x4270_0000);
    let (low, high) = (of(0x3A83_126F), of(0x4000_0000));
    bounds::lemma_unit();
    bounds::lemma_small_wholes();
    lemma_tempos();
    lemma_length(p.delay_division);
    lemma_pow2_pos(149);
    single::law_order_is_numeric(tempo_bpm, of(0x41A0_0000));
    single::law_order_is_numeric(of(0x4396_0000), tempo_bpm);
    assert(NoteDivision::usable_tempo(tempo_bpm) == tempo_bpm);
    let top = exact::lemma_scaled_whole(300, 0);
    assert(bounds::over(0, -149) == pow2(149));
    let (u, v) = (x.units(), sixty.units());
    assert(w >= HIDDEN) by {
        lemma2_to64();
        lemma_pow2_pos(126);
        lemma_pow2_adds(23, 126);
    }
    assert(u * v <= (300 * w) * w && u * v >= w * w && u * v >= HIDDEN * w) by (nonlinear_arith)
        requires
            w <= 8 * u,
            u <= 5 * w,
            v == 60 * w,
            w >= HIDDEN,
            HIDDEN > 0,
    ;
    bounds::lemma_product_bounds(x, sixty, top);
    bounds::lemma_product_bounds(x, sixty, of(0x3F80_0000));
    let q = x.product(sixty);
    single::law_order_is_numeric(q, top);
    single::law_order_is_numeric(of(0x3F80_0000), q);
    exact::lemma_product_close(x, sixty);
    let y = q.units();
    assert(y * w <= (300 * w) * b && y * w >= low.units() * b && y * w >= HIDDEN * b)
        by (nonlinear_arith)
        requires
            w <= y <= 300 * w,
            20 * w <= b <= 300 * w,
            999 * low.units() <= w,
            0 <= low.units(),
            w >= 300 * HIDDEN,
            HIDDEN > 0,
    ;
    bounds::lemma_quotient_bounds(q, tempo_bpm, top);
    bounds::lemma_quotient_bounds(q, tempo_bpm, low);
    let s = q.quotient(tempo_bpm);
    single::law_order_is_numeric(s, top);
    single::law_order_is_numeric(s, low);
    single::law_order_is_numeric(low, s);
    single::law_order_is_numeric(high, s);
    exact::lemma_quotient_close(q, tempo_bpm);
    let z = s.units();
    let dd = d as int;
    // z * b is y * w, y * w is u * 60 * w, and u * d is n * w.
    exact::lemma_close_chain(z * b, y * w, 2, u * v, 2);
    exact::lemma_close_times(z * b, u * v, 5, dd);
    exact::lemma_close_times(u * dd, n * w, 2, v);
    let want = (60 * n * w) * w;
    assert((u * v) * dd == (u * dd) * v && (n * w) * v == want && 0 <= want) by (nonlinear_arith)
        requires
            v == 60 * w,
            want == (60 * n * w) * w,
            w > 0,
            n >= 0,
    ;
    assert((z * b) * dd == z * b * dd);
    exact::lemma_close_chain(z * b * dd, (u * v) * dd, 5, want, 2);
    assert(8 * want <= 16 * want);
    assert(exact::whole(exact::whole((60 * n) as int)) == want);
    if high.below(s) {
        assert(2 * w * b * dd <= z * b * dd) by (nonlinear_arith)
            requires
                2 * w <= z,
                b >= 0,
                dd >= 0,
        ;
    }
}

proof fn lemma_tempos()
    ensures
        of(0x4270_0000).finite(),
        of(0x4270_0000).units() == exact::whole(60),
        of(0x41A0_0000).finite(),
        of(0x41A0_0000).units() == exact::whole(20),
        of(0x4396_0000).finite(),
        of(0x4396_0000).units() == exact::whole(300),
        of(0x42F0_0000).units() == exact::whole(120),
        of(0x3A83_126F).finite(),
        0 <= 999 * of(0x3A83_126F).units() <= pow2(149),
        300 * HIDDEN <= pow2(149),
{
    lemma2_to64();
    lemma2_to64_rest();
    lemma_pow2_adds(18, 131);
    lemma_pow2_adds(19, 130);
    lemma_pow2_adds(15, 134);
    lemma_pow2_adds(17, 132);
    lemma_pow2_pos(116);
    lemma_pow2_adds(33, 116);
    lemma_pow2_adds(36, 113);
    lemma_pow2_pos(113);
    assert(0x4270_0000int / 0x0080_0000int == 132 && 0x4270_0000int % 0x0080_0000int == 0x0070_0000);
    assert(single::magnitude_units(0x4270_0000) == 0x00F0_0000 * pow2(131));
    assert(0x41A0_0000int / 0x0080_0000int == 131 && 0x41A0_0000int % 0x0080_0000int == 0x0020_0000);
    assert(single::magnitude_units(0x41A0_0000) == 0x00A0_0000 * pow2(130));
    assert(0x4396_0000int / 0x0080_0000int == 135 && 0x4396_0000int % 0x0080_0000int == 0x0016_0000);
    assert(single::magnitude_units(0x4396_0000) == 0x0096_0000 * pow2(134));
    assert(0x42F0_0000int / 0x0080_0000int == 133 && 0x42F0_0000int % 0x0080_0000int == 0x0070_0000);
    assert(single::magnitude_units(0x42F0_0000) == 0x00F0_0000 * pow2(132));
    assert(0x3A83_126Fint / 0x0080_0000int == 117 && 0x3A83_126Fint % 0x0080_0000int == 0x0003_126F);
    assert(single::magnitude_units(0x3A83_126F) == 0x0083_126F * pow2(116));
}

/// A tempo that no clock keeps is held to those that one does, and one that is no number is
/// a hundred and twenty.
pub proof fn law_a_tempo_is_held_to_a_clocks(bpm: Single)
    ensures
        ({
            let t = NoteDivision::usable_tempo(bpm);
            &&& t.finite()
            &&& exact::whole(20) <= t.units() <= exact::whole(300)
            &&& (bpm.finite() && exact::whole(20) <= bpm.units() <= exact::whole(300)) ==> t == bpm
            &&& (bpm.finite() && bpm.units() < exact::whole(20)) ==> t.units() == exact::whole(20)
            &&& (bpm.finite() && bpm.units() > exact::whole(300)) ==> t.units() == exact::whole(300)
            &&& !bpm.finite() ==> t.units() == exact::whole(120)
        }),
{
    lemma_tempos();
    lemma_pow2_pos(149);
    if bpm.finite() {
        single::law_order_is_numeric(bpm, of(0x41A0_0000));
        single::law_order_is_numeric(of(0x4396_0000), bpm);
    }
}

/// A delay that is not synced goes by its knob, at any tempo.
pub proof fn law_an_unsynced_delay_goes_by_its_knob(p: Params, tempo_bpm: Single)
    requires
        !p.delay_sync,
        of(0x3A83_126F).at_most(p.delay_time),
        p.delay_time.at_most(of(0x4000_0000)),
    ensures
        delay::wanted_seconds(p, tempo_bpm) == p.delay_time,
{
}

// --- Repeats ---

/// A number as large as an integer, cut off, is that integer.
proof fn lemma_cut_off(d: Single, k: int)
    requires
        d.finite(),
        !d.negative(),
        d.units() == exact::whole(k),
        0 <= k < 0x0100_0000,
    ensures
        d.truncated() == k,
{
    let (m, e, w) = (d.mantissa(), d.exponent(), pow2(149) as int);
    bounds::lemma_weight(d);
    lemma_pow2_pos(149);
    if e >= 150 {
        let g = pow2((e - 150) as nat) as int;
        lemma_pow2_adds((e - 150) as nat, 149);
        assert(single::magnitude_units(d.magnitude()) == m * pow2((e - 1) as nat));
        assert(m * g == k) by (nonlinear_arith)
            requires
                m * (g * w) == k * w,
                w > 0,
        ;
    } else {
        let (g, h) = (pow2((e - 1) as nat) as int, pow2((150 - e) as nat) as int);
        lemma_pow2_adds((e - 1) as nat, (150 - e) as nat);
        lemma_pow2_pos((e - 1) as nat);
        lemma_pow2_pos((150 - e) as nat);
        assert(m * g == k * w);
        assert(m == k * h) by (nonlinear_arith)
            requires
                m * g == k * w,
                w == g * h,
                g > 0,
        ;
        vstd::arithmetic::div_mod::lemma_div_multiples_vanish(k, h);
    }
}

/// Read at a whole number of samples a line gives the sample that long ago.
pub proof fn law_a_whole_delay_reads_a_sample(held: Seq<Single>, d: Single, k: int)
    requires
        d.finite(),
        !d.negative(),
        d.units() == exact::whole(k),
        0 <= k < 0x0100_0000,
        k < held.len() <= u64::MAX,
        held[k].finite(),
        line::ago(held, k + 1).difference(held[k]).finite(),
    ensures
        line::between(held, d).finite(),
        line::between(held, d).units() == held[k].units(),
{
    let zero = of(0);
    let end = Single::nearest_to(held.len() - 1);
    let w = pow2(149) as int;
    bounds::lemma_unit();
    lemma_pow2_pos(149);
    exact::lemma_whole(k);
    bounds::lemma_whole_finite(held.len() - 1);
    assert(k * w >= 0) by (nonlinear_arith)
        requires
            k >= 0,
            w > 0,
    ;
    lemma2_to64();
    assert(bounds::over(0, 0) == 1);
    bounds::lemma_encode_ordered(
        Format::Single,
        k as nat,
        1,
        0,
        (held.len() - 1) as nat,
        1,
        0,
    );
    let same = Single::nearest_to(k);
    single::law_order_is_numeric(d, zero);
    single::law_order_is_numeric(d, same);
    single::law_order_is_numeric(end, d);
    single::law_order_is_numeric(end, same);
    assert(line::held_delay(held, d) == d);
    lemma_cut_off(d, k);
    bounds::lemma_opposite(same);
    exact::lemma_exact_sum(d, same.opposite(), zero);
    let (a, b) = (held[k], line::ago(held, k + 1));
    let part = d.difference(same);
    lemma_nothing(part);
    bounds::lemma_product_with_zero(b.difference(a), part);
    bounds::lemma_sum_with_zero(a, b.difference(a).product(part));
    lemma_one_value(line::between(held, d), a);
}

proof fn lemma_nothing(x: Single)
    requires
        x.finite(),
    ensures
        x.units() == 0 <==> x.magnitude() == 0,
{
    bounds::lemma_unit();
    single::law_order_is_numeric(x, of(0));
    single::law_order_is_numeric(of(0), x);
}

proof fn lemma_one_value(x: Single, y: Single)
    requires
        x.finite(),
        y.finite(),
        x.key() == y.key(),
    ensures
        x.units() == y.units(),
{
    single::law_order_is_numeric(x, y);
    single::law_order_is_numeric(y, x);
}

/// Undamped, and after silence, a repeat is what comes off the line.
proof fn lemma_undamped(e: Echo, s: EchoSetting, d: Single)
    requires
        e.dark.magnitude() == 0,
        s.keep.magnitude() == 0,
        d == line::between(e.line, s.time.difference(of(0x3F80_0000))),
        d.finite(),
    ensures
        e.repeat(s).finite(),
        e.repeat(s).units() == d.units(),
{
    let one = of(0x3F80_0000);
    bounds::lemma_unit();
    bounds::lemma_opposite(e.dark);
    bounds::lemma_opposite(s.keep);
    lemma_nothing(e.dark);
    lemma_nothing(s.keep);
    bounds::lemma_sum_with_zero(one, s.keep.opposite());
    exact::lemma_one_key(one.difference(s.keep), one);
    bounds::lemma_sum_with_zero(d, e.dark.opposite());
    let y = d.difference(e.dark);
    lemma_one_value(y, d);
    assert(y.units() * pow2(149) == one.units() * y.units()) by (nonlinear_arith)
        requires
            one.units() == pow2(149),
    ;
    exact::lemma_exact_product(one, y, y);
    exact::lemma_exact_sum(e.dark, one.product(y), y);
}

/// Whether a line holds a click that went in so many samples ago, if at all, and else
/// nothing.
pub open spec fn holds_a_click(held: Seq<Single>, x: Single, m: int) -> bool {
    forall|k: int|
        0 <= k < held.len() ==> #[trigger] held[k] == (if k == m - 1 {
            x
        } else {
            of(0)
        })
}

/// An echo comes back after its time and not before: a click into an empty delay, with
/// its damping open, comes back as it went in when as many samples have passed as the
/// delay is long, and until it does there is nothing.
pub proof fn law_an_echo_comes_after_its_time(
    e: Echoes,
    left: Seq<Single>,
    right: Seq<Single>,
    s: EchoSetting,
    n: int,
    m: int,
)
    requires
        e == e.cleared(),
        0 <= m <= n,
        1 <= n < 0x0100_0000,
        n < e.left.line.len() <= u64::MAX,
        s.time.finite(),
        s.time.units() == exact::whole(n),
        s.keep.magnitude() == 0,
        s.feedback.finite(),
        !s.ping_pong,
        n < left.len(),
        left[0].finite(),
        line::flushed(left[0]) == left[0],
        forall|i: int| 0 < i <= n ==> #[trigger] left[i] == of(0),
    ensures
        holds_a_click(e.after_all(left, right, s, m).left.line, left[0], m),
        e.after_all(left, right, s, m).left.line.len() == e.left.line.len(),
        e.after_all(left, right, s, m).left.dark.magnitude() == 0,
        m == n ==> {
            &&& e.after_all(left, right, s, n + 1).left.dark.finite()
            &&& e.after_all(left, right, s, n + 1).left.dark.units() == left[0].units()
        },
    decreases m,
{
    let x = left[0];
    if m > 0 {
        law_an_echo_comes_after_its_time(e, left, right, s, n, m - 1);
        let before = e.after_all(left, right, s, m - 1);
        lemma_the_next_repeat(before.left, s, x, n, m - 1);
        let back = before.left.repeat(s);
        lemma_nothing(back);
        bounds::lemma_product_with_zero(s.feedback, back);
        let again = back.product(s.feedback);
        let dry = left[m - 1];
        bounds::lemma_unit();
        bounds::lemma_sum_with_zero(dry, again);
        let fed = dry.sum(again);
        if x.key() != 0 && m == 1 {
            exact::lemma_one_key(fed, x);
        }
        assert(line::flushed(fed) == (if m == 1 {
            x
        } else {
            of(0)
        }));
        let after = e.after_all(left, right, s, m).left.line;
        assert(after == line::pushed(before.left.line, fed));
        assert(holds_a_click(after, x, m));
    }
    if m == n {
        lemma_the_next_repeat(e.after_all(left, right, s, n).left, s, x, n, n);
    }
}

/// What comes off a line that holds a click.
proof fn lemma_the_next_repeat(e: Echo, s: EchoSetting, x: Single, n: int, m: int)
    requires
        holds_a_click(e.line, x, m),
        e.dark.magnitude() == 0,
        0 <= m <= n,
        1 <= n < 0x0100_0000,
        n < e.line.len() <= u64::MAX,
        s.time.finite(),
        s.time.units() == exact::whole(n),
        s.keep.magnitude() == 0,
        x.finite(),
    ensures
        e.repeat(s).finite(),
        e.repeat(s).units() == (if m == n {
            x.units()
        } else {
            0
        }),
{
    let (one, zero) = (of(0x3F80_0000), of(0));
    let w = pow2(149) as int;
    bounds::lemma_unit();
    lemma_pow2_pos(149);
    bounds::lemma_opposite(one);
    exact::lemma_whole(n - 1);
    let d = s.time.difference(one);
    let whole = Single::nearest_to(n - 1);
    assert(n * w - w == (n - 1) * w) by (nonlinear_arith);
    exact::lemma_exact_sum(s.time, one.opposite(), whole);
    assert(!d.negative()) by {
        if n == 1 {
            lemma_less_itself(s.time, one);
        } else {
            assert(whole.units() != 0) by (nonlinear_arith)
                requires
                    whole.units() == (n - 1) * w,
                    n > 1,
                    w > 0,
            ;
        }
    }
    let (a, b) = (e.line[n - 1], line::ago(e.line, n));
    assert(b == zero || b == x);
    assert(b.difference(a).finite()) by {
        bounds::lemma_opposite(a);
        bounds::lemma_opposite(x);
        if a == zero {
            bounds::lemma_sum_with_zero(b, a.opposite());
        } else {
            exact::lemma_exact_sum(
                b,
                a.opposite(),
                if b == zero {
                    x.opposite()
                } else {
                    zero
                },
            );
        }
    }
    law_a_whole_delay_reads_a_sample(e.line, d, n - 1);
    lemma_undamped(e, s, line::between(e.line, d));
}

/// One less one has no sign.
proof fn lemma_less_itself(x: Single, y: Single)
    requires
        x.finite(),
        y.finite(),
        x.units() == y.units(),
        y.units() > 0,
    ensures
        !x.difference(y).negative(),
{
    single::law_order_is_numeric(x, y);
    single::law_order_is_numeric(y, x);
    bounds::lemma_unit();
    lemma_nothing(y);
    exact::lemma_one_key(x, y);
    reveal(Single::sum);
    bounds::lemma_opposite(y);
}

/// A repeat goes round at the feedback: into its own line side by side, and into the
/// other when the lines are crossed.
pub proof fn law_a_repeat_goes_round_at_the_feedback(e: Echoes, s: EchoSetting)
    requires
        s.feedback.finite(),
        e.left.repeat(s).finite(),
        e.right.repeat(s).finite(),
        e.left.repeat(s).product(s.feedback).finite(),
        e.right.repeat(s).product(s.feedback).finite(),
        e.left.repeat(s).units() >= 0,
        e.right.repeat(s).units() >= 0,
        s.feedback.units() >= 0,
        e.left.repeat(s).units() * s.feedback.units() >= HIDDEN * pow2(149),
        e.right.repeat(s).units() * s.feedback.units() >= HIDDEN * pow2(149),
    ensures
        ({
            let nothing = (of(0), of(0));
            let (l, r) = (e.fed_left(nothing, s), e.fed_right(nothing, s));
            let (from_left, from_right) = if s.ping_pong {
                (r, l)
            } else {
                (l, r)
            };
            &&& exact::close(
                exact::whole(from_left.units()),
                e.left.repeat(s).units() * s.feedback.units(),
                2,
            )
            &&& exact::close(
                exact::whole(from_right.units()),
                e.right.repeat(s).units() * s.feedback.units(),
                2,
            )
        }),
{
    let (zero, half) = (of(0), of(0x3F00_0000));
    let (a, b) = (e.left.repeat(s).product(s.feedback), e.right.repeat(s).product(s.feedback));
    bounds::lemma_unit();
    bounds::lemma_small_wholes();
    exact::lemma_product_close(e.left.repeat(s), s.feedback);
    exact::lemma_product_close(e.right.repeat(s), s.feedback);
    exact::lemma_exact_sum(zero, a, a);
    exact::lemma_exact_sum(zero, b, b);
    bounds::lemma_sum_with_zero(zero, zero);
    let none = zero.sum(zero);
    lemma_one_value(none, zero);
    lemma_nothing(none);
    bounds::lemma_product_with_zero(half, none);
    let mono = none.product(half);
    lemma_nothing(mono);
    exact::lemma_exact_sum(mono, b, b);
}

/// Crossed, a delay takes what is in the middle in on the left as it is.
pub proof fn law_a_crossed_delay_takes_the_middle(e: Echoes, x: Single, s: EchoSetting)
    requires
        s.ping_pong,
        bounds::in_unit(x),
        s.feedback.magnitude() == 0,
        e.right.repeat(s).finite(),
    ensures
        e.fed_left((x, x), s).units() == x.units(),
{
    let (half, w) = (of(0x3F00_0000), pow2(149) as int);
    bounds::lemma_in_unit(x);
    bounds::lemma_small_wholes();
    bounds::lemma_doubled(x);
    let y = x.sum(x);
    let (u, v, h) = (x.units(), y.units(), half.units());
    assert(u * w == v * h) by (nonlinear_arith)
        requires
            v == 2 * u,
            2 * h == w,
    ;
    exact::lemma_exact_product(y, half, x);
    let z = y.product(half);
    bounds::lemma_product_with_zero(e.right.repeat(s), s.feedback);
    bounds::lemma_sum_with_zero(z, e.right.repeat(s).product(s.feedback));
    lemma_one_value(z.sum(e.right.repeat(s).product(s.feedback)), z);
}

/// A mix goes from dry to wet as it is turned up: between two whole numbers, to the middle
/// halfway, and to the wet one at the top.
pub proof fn law_a_mix_goes_from_dry_to_wet(dry: Single, wet: Single, j: int, k: int)
    requires
        sound_laws::shift(wet, j),
        sound_laws::shift(dry, k),
    ensures
        2 * reverb::blended(dry, wet, of(0x3F00_0000)).units() == exact::whole(j + k),
        reverb::blended(dry, wet, of(0x3F80_0000)).units() == exact::whole(j),
{
    let (half, one, w) = (of(0x3F00_0000), of(0x3F80_0000), pow2(149) as int);
    bounds::lemma_unit();
    bounds::lemma_small_wholes();
    lemma_pow2_pos(149);
    bounds::lemma_opposite(dry);
    assert(-(k * w) == (-k) * w && j * w + k * w == (j + k) * w && 2 * (k * w) + (j - k) * w == (j
        + k) * w) by (nonlinear_arith);
    sound_laws::lemma_whole_sum(wet, j, dry.opposite(), -k);
    let d = wet.difference(dry);
    exact::lemma_exact_product(d, one, d);
    sound_laws::lemma_whole_sum(dry, k, d.product(one), j - k);
    let x = sound_laws::lemma_half(j - k);
    let h = half.units();
    assert(x.units() * w == ((j - k) * w) * h) by (nonlinear_arith)
        requires
            2 * x.units() == (j - k) * w,
            2 * h == w,
    ;
    exact::lemma_exact_product(d, half, x);
    let y = sound_laws::lemma_half(j + k);
    exact::lemma_exact_sum(dry, d.product(half), y);
}

/// A width goes from the middle to the sides as it is turned up: with no width a side is
/// the middle of both, halfway it is halfway there, and at full width it is itself.
pub proof fn law_a_width_goes_from_the_middle_to_the_sides(left: Single, right: Single, j: int, k: int)
    requires
        sound_laws::shift(left, 2 * j),
        sound_laws::shift(right, 2 * k),
    ensures
        reverb::widened(left, left, right, of(0)).units() == exact::whole(j + k),
        reverb::widened(left, left, right, of(0x3F80_0000)).units() == exact::whole(2 * j),
        2 * reverb::widened(left, left, right, of(0x3F00_0000)).units() == exact::whole(3 * j + k),
        reverb::widened(right, left, right, of(0x3F80_0000)).units() == exact::whole(2 * k),
        2 * reverb::widened(right, left, right, of(0x3F00_0000)).units() == exact::whole(j + 3 * k),
{
    let (half, w) = (of(0x3F00_0000), pow2(149) as int);
    bounds::lemma_unit();
    bounds::lemma_small_wholes();
    lemma_pow2_pos(149);
    sound_laws::lemma_whole_sum(left, 2 * j, right, 2 * k);
    let both = left.sum(right);
    let x = sound_laws::lemma_half(2 * (j + k));
    let h = half.units();
    assert((2 * j + 2 * k) * w == (2 * (j + k)) * w && (2 * (j + k)) * w == 2 * ((j + k) * w))
        by (nonlinear_arith);
    assert(x.units() * w == ((2 * (j + k)) * w) * h) by (nonlinear_arith)
        requires
            2 * x.units() == (2 * (j + k)) * w,
            2 * h == w,
    ;
    exact::lemma_exact_product(both, half, x);
    let centre = both.product(half);
    law_a_mix_goes_from_dry_to_wet(centre, left, 2 * j, j + k);
    law_a_mix_goes_from_dry_to_wet(centre, right, 2 * k, j + k);
    let d = left.difference(centre);
    bounds::lemma_opposite(centre);
    assert(-((j + k) * w) == (-(j + k)) * w) by (nonlinear_arith);
    sound_laws::lemma_whole_sum(left, 2 * j, centre.opposite(), -(j + k));
    bounds::lemma_product_with_zero(d, of(0));
    bounds::lemma_sum_with_zero(centre, d.product(of(0)));
    lemma_one_value(centre.sum(d.product(of(0))), centre);
}

} // verus!
