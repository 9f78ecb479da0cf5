//! How fast things go: steps, ticks, slow oscillators and smoothers.

use crate::bounds;
use crate::clock;
use crate::double;
use crate::double::{Double, HIDDEN, INFINITE};
use crate::exact;
use crate::lfo;
use crate::params::of;
use crate::rounding;
use crate::single;
use crate::single::Single;
use crate::smooth;
use crate::sound_laws;
use vstd::arithmetic::power2::*;
use vstd::prelude::*;

verus! {

/// Whether one number is twice another, neither of them vanishing: the same mantissa, and
/// the next exponent.
pub open spec fn twice(x: Double, y: Double) -> bool {
    &&& !x.negative() && !y.negative()
    &&& x.finite() && y.finite()
    &&& HIDDEN <= y.bits
    &&& x.bits == y.bits + HIDDEN
}

/// Whether a positive number is neither vanishing nor enormous: full, with its last place
/// within a range.
spec fn plain(x: Double, lo: int, hi: int) -> bool {
    &&& !x.negative()
    &&& x.finite()
    &&& HIDDEN <= x.bits
    &&& lo <= x.parts().e <= hi
    &&& HIDDEN <= x.parts().m < 2 * HIDDEN
}

/// A pattern taken apart.
proof fn lemma_pattern(b: int, lo: int, hi: int)
    requires
        HIDDEN <= b < INFINITE,
        (lo + 1075) * HIDDEN <= b < (hi + 1076) * HIDDEN,
    ensures
        plain(double::signed(false, b), lo, hi),
        double::signed(false, b).bits == b,
{
    let h = HIDDEN as int;
    let (q, r) = (b / h, b % h);
    assert(b == q * h + r && 0 <= r < h) by (nonlinear_arith)
        requires
            q == b / h,
            r == b % h,
            h > 0,
    ;
    assert(1 <= q <= 2046 && lo + 1075 <= q <= hi + 1075) by (nonlinear_arith)
        requires
            b == q * h + r,
            0 <= r < h,
            h <= b < 2047 * h,
            (lo + 1075) * h <= b < (hi + 1076) * h,
            h > 0,
    ;
}

/// The next exponent up, taken apart.
proof fn lemma_twice_parts(x: Double, y: Double)
    requires
        twice(x, y),
    ensures
        x.parts().m == y.parts().m,
        x.parts().e == y.parts().e + 1,
        HIDDEN <= y.parts().m < 2 * HIDDEN,
{
    let (h, b) = (HIDDEN as int, y.bits as int);
    let (q, r) = (b / h, b % h);
    assert(b == q * h + r && 0 <= r < h) by (nonlinear_arith)
        requires
            q == b / h,
            r == b % h,
            h > 0,
    ;
    assert(b + h == (q + 1) * h + r) by (nonlinear_arith)
        requires
            b == q * h + r,
    ;
    vstd::arithmetic::div_mod::lemma_fundamental_div_mod_converse(b + h, h, q + 1, r);
    assert(1 <= q <= 2046) by (nonlinear_arith)
        requires
            b == q * h + r,
            0 <= r < h,
            h <= b < 2047 * h,
            h > 0,
    ;
}

/// How far rounding moves an exponent.
proof fn lemma_places(n: nat, d: nat)
    requires
        0 < n <= pow2(106),
        0 < d <= pow2(53),
    ensures
        rounding::doublings(HIDDEN as nat, n, d) <= 106,
        rounding::halvings(HIDDEN as nat, n, d) <= 54,
{
    let h = HIDDEN as nat;
    lemma2_to64_rest();
    lemma_pow2_adds(53, 53);
    lemma_pow2_adds(52, 54);
    rounding::lemma_halvings(h, n, d);
    let (s, t) = (rounding::doublings(h, n, d), rounding::halvings(h, n, d));
    if n < 2 * (h * d) {
        rounding::lemma_doublings(h, n, d);
        if s > 106 {
            lemma_pow2_strictly_increases(106, s);
            assert(false) by (nonlinear_arith)
                requires
                    n * pow2(s) < 2 * (h * d),
                    n >= 1,
                    pow2(s) > pow2(106),
                    pow2(106) == pow2(53) * pow2(53),
                    2 * h == pow2(53),
                    d <= pow2(53),
            ;
        }
    }
    if t > 54 {
        lemma_pow2_strictly_increases(54, t);
        assert(false) by (nonlinear_arith)
            requires
                h * (d * pow2(t)) <= n,
                n <= pow2(106),
                pow2(106) == pow2(52) * pow2(54),
                h == pow2(52),
                pow2(t) > pow2(54),
                d >= 1,
                h > 0,
        ;
    }
}

/// Twice the value has the next exponent.
proof fn lemma_next_up(n: nat, d: nat, k: int)
    requires
        0 < n <= pow2(106),
        0 < d <= pow2(53),
        -600 <= k <= 600,
    ensures
        ({
            let (b, c) = (double::encode(n, d, k), double::encode(n, d, k + 1));
            &&& c == b + HIDDEN
            &&& plain(double::signed(false, b), k - 107, k + 57)
            &&& twice(double::signed(false, c), double::signed(false, b))
        }),
{
    let (h, low) = (HIDDEN as nat, -1074int);
    lemma_places(n, d);
    let q = rounding::quantum(h, low, n, d, k);
    let m = rounding::mantissa(h, low, n, d, k);
    rounding::lemma_mantissa_fits(h, low, n, d, k);
    assert(k - 106 <= q <= k + 54);
    assert(rounding::quantum(h, low, n, d, k + 1) == q + 1);
    assert(rounding::mantissa(h, low, n, d, k + 1) == m);
    let b = (q - low) * h + m;
    assert((q + 1 - low) * h + m == b + h && (k - 107 + 1075) * h <= b && b < (k + 57 + 1076) * h
        && h <= b && b + 2 * h < 2047 * h) by (nonlinear_arith)
        requires
            b == (q - low) * h + m,
            0 <= m <= 2 * h,
            k - 106 <= q <= k + 54,
            -600 <= k <= 600,
            low == -1074,
            h > 0,
    ;
    assert(double::encode(n, d, k) == b && double::encode(n, d, k + 1) == b + h);
    lemma_pattern(b, k - 107, k + 57);
    lemma_pattern(b + h, k - 106, k + 58);
}

/// A number at a place in a range, and twice it, in double precision.
proof fn lemma_widened(x: Single, y: Single, lo: u32, hi: u32)
    requires
        of(lo).at_most(x),
        x.at_most(of(hi)),
        0x3E00_0000 <= lo <= hi <= 0x4B00_0000,
        y.bits == x.bits + 0x0080_0000,
    ensures
        plain(Double::widened(x), -133, 58),
        twice(Double::widened(y), Double::widened(x)),
{
    lemma2_to64_rest();
    lemma_pow2_adds(53, 53);
    let (m, k) = (x.mantissa(), x.exponent() - 150);
    assert(y.mantissa() == m && y.exponent() == x.exponent() + 1);
    lemma_next_up(m as nat, 1, k);
}

/// Twice one factor is twice the product.
proof fn lemma_product_twice(a: Double, x: Double)
    requires
        plain(a, -300, 300),
        plain(x, -300, 300),
    ensures
        forall|y: Double| twice(y, x) ==> #[trigger] twice(a.product(y), a.product(x)),
        plain(a.product(x), a.parts().e + x.parts().e - 107, a.parts().e + x.parts().e + 57),
{
    lemma2_to64_rest();
    lemma_pow2_adds(53, 53);
    let (p, q) = (a.parts().m as int, x.parts().m as int);
    assert(0 < p * q <= pow2(106)) by (nonlinear_arith)
        requires
            0 < p <= pow2(53),
            0 < q <= pow2(53),
            pow2(106) == pow2(53) * pow2(53),
    ;
    lemma_next_up((p * q) as nat, 1, a.parts().e + x.parts().e);
    assert forall|y: Double| twice(y, x) implies #[trigger] twice(a.product(y), a.product(x)) by {
        lemma_twice_parts(y, x);
    }
}

/// Twice what is divided is twice the quotient, and half by twice as much.
proof fn lemma_quotient_twice(x: Double, a: Double)
    requires
        plain(x, -460, 300),
        plain(a, -133, 58),
    ensures
        forall|y: Double|
            twice(y, x) ==> #[trigger] twice(y.quotient(a), x.quotient(a)),
        forall|b: Double|
            twice(b, a) ==> #[trigger] twice(x.quotient(a), x.quotient(b)),
        plain(x.quotient(a), x.parts().e - a.parts().e - 107, x.parts().e - a.parts().e + 57),
{
    lemma2_to64_rest();
    lemma_pow2_adds(53, 53);
    lemma_pow2_strictly_increases(53, 106);
    let (n, d, k) = (x.parts().m as nat, a.parts().m as nat, x.parts().e - a.parts().e);
    lemma_next_up(n, d, k);
    lemma_next_up(n, d, k - 1);
    assert forall|y: Double| twice(y, x) implies #[trigger] twice(y.quotient(a), x.quotient(a)) by {
        lemma_twice_parts(y, x);
    }
    assert forall|b: Double| twice(b, a) implies #[trigger] twice(x.quotient(a), x.quotient(b)) by {
        lemma_twice_parts(b, a);
    }
}

/// Whether a rate is one that sound is made at.
pub open spec fn audible(rate: Single) -> bool {
    of(0x447A_0000).at_most(rate) && rate.at_most(of(0x4980_0000))
}

/// Whether a tempo is one that a clock keeps, up to some other.
pub open spec fn kept(bpm: Single, top: Single) -> bool {
    of(0x41A0_0000).at_most(bpm) && bpm.at_most(top)
}

/// Whether a number of steps to the beat is one that a clock counts, up to some other.
pub open spec fn counted(steps_per_beat: Single, top: Single) -> bool {
    of(0x3E80_0000).at_most(steps_per_beat) && steps_per_beat.at_most(top)
}

/// Twice the tempo is half the step, wherever that is more than a sample.
pub proof fn law_twice_the_tempo_is_half_the_step(
    rate: Single,
    bpm: Single,
    steps_per_beat: Single,
    twice_bpm: Single,
)
    requires
        audible(rate),
        kept(bpm, of(0x4316_0000)),
        counted(steps_per_beat, of(0x4180_0000)),
        twice_bpm.bits == bpm.bits + 0x0080_0000,
        (Double { bits: clock::ONE }).below(clock::step_at_tempo(rate, twice_bpm, steps_per_beat)),
    ensures
        twice(
            clock::step_at_tempo(rate, bpm, steps_per_beat),
            clock::step_at_tempo(rate, twice_bpm, steps_per_beat),
        ),
{
    lemma_still_kept(bpm, twice_bpm);
    lemma_rate(rate);
    lemma_widened(bpm, twice_bpm, 0x41A0_0000, 0x4316_0000);
    lemma_steps(steps_per_beat);
    lemma_lengths(
        Double::widened(rate),
        Double::widened(bpm),
        Double::widened(steps_per_beat),
        Double::widened(twice_bpm),
    );
    lemma_step(rate, bpm, steps_per_beat);
    lemma_step(rate, twice_bpm, steps_per_beat);
    lemma_held(
        length(
            Double::widened(rate),
            Double::widened(bpm),
            Double::widened(steps_per_beat),
        ),
        length(
            Double::widened(rate),
            Double::widened(twice_bpm),
            Double::widened(steps_per_beat),
        ),
    );
}

/// Twice as many steps to a beat are half as long, wherever that is more than a sample.
pub proof fn law_twice_the_steps_are_half_as_long(
    rate: Single,
    bpm: Single,
    steps_per_beat: Single,
    twice_steps: Single,
)
    requires
        audible(rate),
        kept(bpm, of(0x4396_0000)),
        counted(steps_per_beat, of(0x4100_0000)),
        twice_steps.bits == steps_per_beat.bits + 0x0080_0000,
        (Double { bits: clock::ONE }).below(clock::step_at_tempo(rate, bpm, twice_steps)),
    ensures
        twice(
            clock::step_at_tempo(rate, bpm, steps_per_beat),
            clock::step_at_tempo(rate, bpm, twice_steps),
        ),
{
    lemma_still_counted(steps_per_beat, twice_steps);
    lemma_rate(rate);
    lemma_tempo(bpm);
    lemma_widened(steps_per_beat, twice_steps, 0x3E80_0000, 0x4100_0000);
    lemma_lengths(
        Double::widened(rate),
        Double::widened(bpm),
        Double::widened(steps_per_beat),
        Double::widened(twice_steps),
    );
    lemma_step(rate, bpm, steps_per_beat);
    lemma_step(rate, bpm, twice_steps);
    lemma_held(
        length(
            Double::widened(rate),
            Double::widened(bpm),
            Double::widened(steps_per_beat),
        ),
        length(Double::widened(rate), Double::widened(bpm), Double::widened(twice_steps)),
    );
}

/// At twice the rate a step takes twice as many samples.
pub proof fn law_twice_the_rate_is_twice_the_samples(
    rate: Single,
    bpm: Single,
    steps_per_beat: Single,
    twice_rate: Single,
)
    requires
        audible(rate),
        kept(bpm, of(0x4396_0000)),
        counted(steps_per_beat, of(0x4180_0000)),
        twice_rate.bits == rate.bits + 0x0080_0000,
        (Double { bits: clock::ONE }).below(clock::step_at_tempo(rate, bpm, steps_per_beat)),
    ensures
        twice(
            clock::step_at_tempo(twice_rate, bpm, steps_per_beat),
            clock::step_at_tempo(rate, bpm, steps_per_beat),
        ),
{
    lemma_widened(rate, twice_rate, 0x447A_0000, 0x4980_0000);
    lemma_tempo(bpm);
    lemma_steps(steps_per_beat);
    lemma_lengths(
        Double::widened(rate),
        Double::widened(bpm),
        Double::widened(steps_per_beat),
        Double::widened(twice_rate),
    );
    lemma_step(rate, bpm, steps_per_beat);
    lemma_step(twice_rate, bpm, steps_per_beat);
    lemma_held(
        length(
            Double::widened(twice_rate),
            Double::widened(bpm),
            Double::widened(steps_per_beat),
        ),
        length(
            Double::widened(rate),
            Double::widened(bpm),
            Double::widened(steps_per_beat),
        ),
    );
}

/// Twice a count of no more than half the finest is a count.
proof fn lemma_still_counted(steps_per_beat: Single, twice_steps: Single)
    requires
        counted(steps_per_beat, of(0x4100_0000)),
        twice_steps.bits == steps_per_beat.bits + 0x0080_0000,
    ensures
        counted(steps_per_beat, of(0x4180_0000)),
        counted(twice_steps, of(0x4180_0000)),
{
}

/// Twice a tempo of no more than half the fastest is a tempo.
proof fn lemma_still_kept(bpm: Single, twice_bpm: Single)
    requires
        kept(bpm, of(0x4316_0000)),
        twice_bpm.bits == bpm.bits + 0x0080_0000,
    ensures
        kept(bpm, of(0x4396_0000)),
        kept(twice_bpm, of(0x4396_0000)),
{
}

/// A step within a clock's limits, but for the shortest one.
proof fn lemma_step(rate: Single, bpm: Single, steps_per_beat: Single)
    requires
        kept(bpm, of(0x4396_0000)),
        counted(steps_per_beat, of(0x4180_0000)),
    ensures
        clock::step_at_tempo(rate, bpm, steps_per_beat) == length(
            Double::widened(rate),
            Double::widened(bpm),
            Double::widened(steps_per_beat),
        ).larger(Double { bits: clock::ONE }),
{
    reveal(length);
    assert(bpm.clamped(of(0x41A0_0000), of(0x4396_0000)) == bpm);
    assert(steps_per_beat.clamped(of(0x3E80_0000), of(0x4180_0000)) == steps_per_beat);
}

/// Where a length is more than a sample, so is twice it, and neither is held.
proof fn lemma_held(x: Double, y: Double)
    requires
        twice(x, y),
    ensures
        (Double { bits: clock::ONE }).below(y.larger(Double { bits: clock::ONE })) ==> {
            &&& y.larger(Double { bits: clock::ONE }) == y
            &&& x.larger(Double { bits: clock::ONE }) == x
        },
{
}

/// The length of a step, without the clock's limits.
#[verifier::opaque]
spec fn length(r: Double, b: Double, s: Double) -> Double {
    (Double { bits: clock::SIXTY }).product(r).quotient(b).quotient(s)
}

proof fn lemma_lengths(r: Double, b: Double, s: Double, x: Double)
    requires
        plain(r, -133, 58),
        plain(b, -133, 58),
        plain(s, -133, 58),
    ensures
        twice(x, r) ==> twice(length(x, b, s), length(r, b, s)),
        twice(x, b) ==> twice(length(r, b, s), length(r, x, s)),
        twice(x, s) ==> twice(length(r, b, s), length(r, b, x)),
{
    reveal(length);
    let sixty = Double { bits: clock::SIXTY };
    lemma_pattern(clock::SIXTY as int, -47, -47);
    lemma_product_twice(sixty, r);
    let minute = sixty.product(r);
    lemma_quotient_twice(minute, b);
    let beat = minute.quotient(b);
    lemma_quotient_twice(beat, s);
    if twice(x, r) {
        assert(twice(sixty.product(x), minute));
        assert(twice(sixty.product(x).quotient(b), beat));
        assert(twice(sixty.product(x).quotient(b).quotient(s), beat.quotient(s)));
    }
    if twice(x, b) {
        assert(twice(beat, minute.quotient(x)));
        lemma_more_quotients(beat, minute.quotient(x), s);
    }
    if twice(x, s) {
        assert(twice(beat.quotient(s), beat.quotient(x)));
    }
}

/// A rate that sound is made at, in double precision.
proof fn lemma_rate(rate: Single)
    requires
        audible(rate),
    ensures
        plain(Double::widened(rate), -133, 58),
{
    lemma_widened(rate, Single { bits: (rate.bits + 0x0080_0000) as u32 }, 0x447A_0000, 0x4980_0000);
}

/// A tempo, in double precision.
proof fn lemma_tempo(bpm: Single)
    requires
        kept(bpm, of(0x4396_0000)),
    ensures
        plain(Double::widened(bpm), -133, 58),
{
    lemma_widened(bpm, Single { bits: (bpm.bits + 0x0080_0000) as u32 }, 0x41A0_0000, 0x4396_0000);
}

/// A count of steps, in double precision.
proof fn lemma_steps(steps_per_beat: Single)
    requires
        counted(steps_per_beat, of(0x4180_0000)),
    ensures
        plain(Double::widened(steps_per_beat), -133, 58),
{
    lemma_widened(
        steps_per_beat,
        Single { bits: (steps_per_beat.bits + 0x0080_0000) as u32 },
        0x3E80_0000,
        0x4180_0000,
    );
}

/// Twice what is divided, seen from the smaller side.
proof fn lemma_more_quotients(y: Double, x: Double, a: Double)
    requires
        twice(y, x),
        plain(y, -459, 300),
        plain(a, -133, 58),
    ensures
        twice(y.quotient(a), x.quotient(a)),
{
    lemma_twice_parts(y, x);
    lemma_quotient_twice(x, a);
}

// --- Ticks ---

/// A beat is twenty-four ticks, however many steps it has.
pub proof fn law_a_beat_is_twenty_four_ticks(steps_per_beat: Single)
    requires
        counted(steps_per_beat, of(0x4180_0000)),
    ensures
        exact::close(
            clock::ticks_per_step(steps_per_beat).units() * steps_per_beat.units(),
            exact::whole(exact::whole(24)),
            2,
        ),
{
    let (w, s) = (pow2(149) as int, steps_per_beat.units());
    let ticks = of(clock::MIDI_CLOCK_PPQN);
    lemma_numbers();
    bounds::lemma_unit();
    let (low, one) = (of(0x3C23_D70A), of(0x3F80_0000));
    let top = exact::lemma_scaled_whole(100, 0);
    assert(bounds::over(0, -149) == pow2(149));
    single::law_order_is_numeric(of(0x3E80_0000), steps_per_beat);
    single::law_order_is_numeric(steps_per_beat, of(0x4180_0000));
    assert(steps_per_beat.clamped(of(0x3E80_0000), of(0x4180_0000)) == steps_per_beat);
    let n = ticks.units();
    assert(n * w <= (100 * w) * s && n * w >= w * s && n * w >= single::HIDDEN * s)
        by (nonlinear_arith)
        requires
            n == 24 * w,
            w <= 4 * s,
            s <= 16 * w,
            w >= single::HIDDEN,
            single::HIDDEN > 0,
    ;
    bounds::lemma_quotient_bounds(ticks, steps_per_beat, top);
    bounds::lemma_quotient_bounds(ticks, steps_per_beat, one);
    exact::lemma_quotient_close(ticks, steps_per_beat);
    let q = ticks.quotient(steps_per_beat);
    assert(low.at_most(one));
    assert(q.larger(low) == q);
}

proof fn lemma_numbers()
    ensures
        of(clock::MIDI_CLOCK_PPQN).finite(),
        of(clock::MIDI_CLOCK_PPQN).units() == exact::whole(24),
        4 * of(0x3E80_0000).units() == pow2(149),
        of(0x3E80_0000).finite(),
        of(0x4180_0000).finite(),
        of(0x4180_0000).units() == exact::whole(16),
        of(0x4220_0000).finite(),
        of(0x4220_0000).units() == exact::whole(40),
        of(0x447A_0000).finite(),
        of(0x447A_0000).units() == exact::whole(1000),
        of(0x3C23_D70A).finite(),
        99 * of(0x3C23_D70A).units() <= pow2(149) <= 101 * of(0x3C23_D70A).units(),
        pow2(149) >= 0x0200_0000_0000 * single::HIDDEN,
{
    lemma2_to64();
    lemma2_to64_rest();
    lemma_pow2_adds(19, 130);
    lemma_pow2_adds(18, 131);
    lemma_pow2_adds(14, 135);
    lemma_pow2_pos(124);
    lemma_pow2_adds(25, 124);
    lemma_pow2_pos(119);
    lemma_pow2_adds(30, 119);
    lemma_pow2_pos(85);
    lemma_pow2_adds(64, 85);
    assert(0x41C0_0000int / 0x0080_0000int == 131 && 0x41C0_0000int % 0x0080_0000int == 0x0040_0000);
    assert(single::magnitude_units(0x41C0_0000) == 0x00C0_0000 * pow2(130));
    assert(0x3E80_0000int / 0x0080_0000int == 125 && 0x3E80_0000int % 0x0080_0000int == 0);
    assert(single::magnitude_units(0x3E80_0000) == 0x0080_0000 * pow2(124));
    assert(0x4180_0000int / 0x0080_0000int == 131 && 0x4180_0000int % 0x0080_0000int == 0);
    assert(single::magnitude_units(0x4180_0000) == 0x0080_0000 * pow2(130));
    assert(0x4220_0000int / 0x0080_0000int == 132 && 0x4220_0000int % 0x0080_0000int == 0x0020_0000);
    assert(single::magnitude_units(0x4220_0000) == 0x00A0_0000 * pow2(131));
    assert(0x447A_0000int / 0x0080_0000int == 136 && 0x447A_0000int % 0x0080_0000int == 0x007A_0000);
    assert(single::magnitude_units(0x447A_0000) == 0x00FA_0000 * pow2(135));
    assert(0x3C23_D70Aint / 0x0080_0000int == 120 && 0x3C23_D70Aint % 0x0080_0000int == 0x0023_D70A);
    assert(single::magnitude_units(0x3C23_D70A) == 0x00A3_D70A * pow2(119));
}

// --- Slow oscillators ---

/// A slow oscillator goes round as often as asked: what goes by in a sample, times the
/// samples in a second, is its rate.
pub proof fn law_a_slow_oscillator_keeps_its_rate(hz: Single, sample_rate: Single)
    requires
        sound_laws::audible_rate(sample_rate),
        hz.finite(),
        of(0x3C23_D70A).at_most(hz),
        hz.at_most(of(0x4220_0000)),
    ensures
        exists|part: Single|
            {
                &&& lfo::pace(hz, sample_rate) == #[trigger] Double::widened(part)
                &&& exact::close(
                    part.units() * sample_rate.units(),
                    exact::whole(hz.units()),
                    2,
                )
            },
{
    let (w, h, r) = (pow2(149) as int, hz.units(), sample_rate.units());
    let (one, zero) = (of(0x3F80_0000), of(0));
    lemma_numbers();
    bounds::lemma_unit();
    single::law_order_is_numeric(of(0x3C23_D70A), hz);
    single::law_order_is_numeric(hz, of(0x4220_0000));
    assert(hz.clamped(of(0x3C23_D70A), of(0x4220_0000)) == hz);
    assert(h * w <= w * r && h * w >= 0 * r && h * w >= single::HIDDEN * r) by (nonlinear_arith)
        requires
            w <= 101 * h,
            h <= 40 * w,
            1000 * w <= r <= 0x0010_0000 * w,
            w >= 0x0200_0000_0000 * single::HIDDEN,
            single::HIDDEN > 0,
    ;
    bounds::lemma_quotient_bounds(hz, sample_rate, one);
    bounds::lemma_quotient_bounds(hz, sample_rate, zero);
    exact::lemma_quotient_close(hz, sample_rate);
    assert(lfo::pace(hz, sample_rate) == Double::widened(hz.quotient(sample_rate)));
}

// --- Smoothers ---

/// A smoother takes the time it is given: a thousand times its steps are its milliseconds
/// times the rate it goes at.
pub proof fn law_a_smoother_takes_its_time(time_ms: Single, rate: Single)
    requires
        time_ms.finite(),
        rate.finite(),
        pow2(130) <= time_ms.units() <= exact::whole(4096),
        exact::whole(1) <= rate.units() <= exact::whole(0x0010_0000),
    ensures
        exact::close(
            smooth::steps_in(time_ms, rate).units() * 1000 * pow2(149),
            time_ms.units() * rate.units(),
            8,
        ),
{
    let (w, m, r) = (pow2(149) as int, time_ms.units(), rate.units());
    let thousand = of(0x447A_0000);
    lemma_numbers();
    bounds::lemma_unit();
    lemma2_to64();
    lemma2_to64_rest();
    lemma_pow2_adds(19, 130);
    lemma_pow2_pos(119);
    lemma_pow2_adds(11, 119);
    lemma_pow2_pos(96);
    lemma_pow2_adds(23, 96);
    let small = exact::lemma_scaled_whole(1, -30);
    let five = exact::lemma_scaled_whole(5, 0);
    let big = exact::lemma_scaled_whole(5, 20);
    lemma_pow2_adds(20, 149);
    lemma_pow2_adds(30, 119);
    assert(bounds::over(-30, -149) == pow2(119) && bounds::over(0, -149) == pow2(149)
        && bounds::over(20, -149) == pow2(169));
    let c = pow2(119) as int;
    assert(m >= 2048 * c && w == 0x4000_0000 * c && c >= single::HIDDEN);
    assert(m * w <= (5 * w) * (1000 * w) && m * w >= c * (1000 * w) && m * w >= single::HIDDEN * (1000
        * w)) by (nonlinear_arith)
        requires
            2048 * c <= m <= 4096 * w,
            c >= single::HIDDEN,
            w > 0,
            single::HIDDEN > 0,
    ;
    bounds::lemma_quotient_bounds(time_ms, thousand, five);
    bounds::lemma_quotient_bounds(time_ms, thousand, small);
    let q = time_ms.quotient(thousand);
    single::law_order_is_numeric(q, five);
    single::law_order_is_numeric(small, q);
    exact::lemma_quotient_close(time_ms, thousand);
    let u = q.units();
    assert(u * r <= (5 * (0x0010_0000 * w)) * w && u * r >= 0 * w && u * r >= single::HIDDEN * w)
        by (nonlinear_arith)
        requires
            c <= u <= 5 * w,
            w <= r <= 0x0010_0000 * w,
            c >= single::HIDDEN,
            w > 0,
            single::HIDDEN > 0,
    ;
    bounds::lemma_product_bounds(q, rate, big);
    bounds::lemma_product_bounds(q, rate, of(0));
    exact::lemma_product_close(q, rate);
    let n = smooth::steps_in(time_ms, rate).units();
    // n * w is u * r, and u * 1000 * w is m * w.
    exact::lemma_close_times(n * w, u * r, 2, 1000 * w);
    exact::lemma_close_times(u * (1000 * w), m * w, 2, r);
    assert((n * w) * (1000 * w) == (n * 1000 * w) * w && (u * r) * (1000 * w) == (u * (1000 * w)) * r
        && (m * w) * r == (m * r) * w) by (nonlinear_arith);
    assert(0 <= m * r && 0 <= (m * r) * w) by (nonlinear_arith)
        requires
            0 <= m,
            0 <= r,
            0 < w,
    ;
    exact::lemma_close_chain((n * 1000 * w) * w, (u * (1000 * w)) * r, 2, (m * r) * w, 2);
    exact::lemma_close_over(n * 1000 * w, m * r, 5, w);
    assert(5 * (m * r) <= 8 * (m * r));
}

} // verus!
