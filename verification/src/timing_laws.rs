//! What holds of the timing of notes: how long they are held, and how late they come.

use crate::bounds;
use crate::clock::{Advance, ClockView};
use crate::drums::pad::PAD_COUNT;
use crate::drums::sequencer::{DrumHits, DrumModel};
use crate::exact;
use crate::params::of;
use crate::sequencer::{Pending, SeqModel, SeqOutput, SeqSettings, Step};
use crate::single;
use crate::single::{Single, HIDDEN};
use vstd::arithmetic::power2::*;
use vstd::prelude::*;

verus! {

/// A countdown by whole samples loses nothing while it lasts.
proof fn lemma_countdown(c: Single, n: int)
    requires
        c.finite(),
        1 <= n < 0x0080_0000,
        exact::whole(n) < c.units() <= exact::whole(0x0080_0000),
    ensures
        c.difference(Single::nearest_to(n)).finite(),
        c.difference(Single::nearest_to(n)).units() == c.units() - exact::whole(n),
{
    exact::lemma_whole(n);
    exact::lemma_whole(0x0080_0000);
    let x = Single::nearest_to(n);
    bounds::lemma_opposite(x);
    lemma_pow2_pos(149);
    lemma2_to64();
    let (w, top) = (pow2(149) as int, Single::nearest_to(0x0080_0000));
    bounds::lemma_unit();
    assert(n * w >= w) by (nonlinear_arith)
        requires
            n >= 1,
            w > 0,
    ;
    single::law_order_is_numeric(c, top);
    single::law_order_is_numeric(Single { bits: 0x3F80_0000 }, c);
    assert(top == of(0x4B00_0000)) by {
        assert(0x4B00_0000int / 0x0080_0000int == 150 && 0x4B00_0000int % 0x0080_0000int == 0);
        assert(single::magnitude_units(0x4B00_0000) == HIDDEN * pow2(149));
        crate::note::lemma_same_value(of(0x4B00_0000), top);
    }
    assert(0x3F80_0000 <= c.magnitude() <= 0x4B00_0000 && !c.negative());
    bounds::lemma_weight(c);
    let (m, e) = (c.parts().m as int, c.parts().e as int);
    assert(-23 <= e <= 0) by {
        assert(127 <= c.exponent() <= 150);
    }
    let (g, h) = (bounds::over(e, -149) as int, pow2((-e) as nat) as int);
    lemma_pow2_adds((-e) as nat, (e + 149) as nat);
    lemma_pow2_pos((e + 149) as nat);
    lemma_pow2_pos((-e) as nat);
    assert(w == h * g);
    let k = m - n * h;
    assert(k * g == m * g - n * w) by (nonlinear_arith)
        requires
            k == m - n * h,
            w == h * g,
    ;
    assert(k > 0) by (nonlinear_arith)
        requires
            k * g > 0,
            g > 0,
    ;
    assert(n * h > 0) by (nonlinear_arith)
        requires
            n > 0,
            h > 0,
    ;
    let y = exact::lemma_scaled_whole(k, e);
    exact::lemma_exact_sum(c, x.opposite(), y);
}

/// A countdown is over in a block exactly when no more than that block is left of it.
proof fn lemma_over(c: Single, n: int)
    requires
        c.finite(),
        0 <= n < 0x0080_0000,
    ensures
        c.difference(Single::nearest_to(n)).at_most(of(0)) <==> c.units() <= exact::whole(n),
{
    exact::lemma_whole(n);
    let x = Single::nearest_to(n);
    bounds::lemma_opposite(x);
    bounds::lemma_unit();
    bounds::lemma_sum_bounds(c, x.opposite(), of(0));
    let d = c.difference(x);
    if c.units() > exact::whole(n) && d.at_most(of(0)) {
        assert(d.key() == 0);
        bounds::lemma_sum_error_of_nothing(c, x.opposite());
    }
}

/// So many blocks without a step.
pub open spec fn waited(m: SeqModel, n: int, k: nat, clock: ClockView, s: SeqSettings) -> SeqModel
    decreases k,
{
    if k == 0 {
        m
    } else {
        waited(m, n, (k - 1) as nat, clock, s).advanced(n, Advance { steps: 0 }, clock, s).0
    }
}

/// Whether nothing but the passing of time happens to a sequencer: the transport runs, and
/// the length knob stays.
pub open spec fn undisturbed(m: SeqModel, clock: ClockView, s: SeqSettings) -> bool {
    clock.running && s.requested() == m.last_length
}

/// A note is released in the first block that takes the samples since it started to its
/// gate, and in none before it.
pub proof fn law_a_note_sounds_until_its_gate_runs_out(
    m: SeqModel,
    n: int,
    k: nat,
    clock: ClockView,
    s: SeqSettings,
    note: u8,
)
    requires
        undisturbed(m, clock, s),
        m.sounding == Some(note),
        m.pending is None,
        m.samples_until_off.finite(),
        0 < m.samples_until_off.units() <= exact::whole(0x0080_0000),
        1 <= n < 0x0080_0000,
    ensures
        ({
            let (before, after, out) = (
                waited(m, n, k, clock, s),
                waited(m, n, k, clock, s).advanced(n, Advance { steps: 0 }, clock, s).0,
                waited(m, n, k, clock, s).advanced(n, Advance { steps: 0 }, clock, s).1,
            );
            let gate = m.samples_until_off.units();
            &&& undisturbed(before, clock, s)
            &&& before.pending is None
            &&& before.sounding == (if exact::whole(k * n) < gate {
                Some(note)
            } else {
                None
            })
            &&& exact::whole(k * n) < gate ==> before.samples_until_off.finite()
                && before.samples_until_off.units() == gate - exact::whole(k * n)
            &&& out.note_on is None
            &&& out.note_off == (if exact::whole(k * n) < gate <= exact::whole((k + 1) * n) {
                Some(note)
            } else {
                None
            })
        }),
    decreases k,
{
    let w = pow2(149) as int;
    lemma_pow2_pos(149);
    assert((k * n) * w + n * w == ((k + 1) * n) * w && (k * n) * w >= 0) by (nonlinear_arith)
        requires
            w > 0,
            n >= 1,
            k >= 0,
    ;
    if k == 0 {
        assert(0 * n == 0);
        assert(0 * w == 0);
    } else {
        law_a_note_sounds_until_its_gate_runs_out(m, n, (k - 1) as nat, clock, s, note);
        let b = waited(m, n, (k - 1) as nat, clock, s);
        assert(((k - 1) * n) * w + n * w == (k * n) * w && ((k - 1) * n) * w >= 0)
            by (nonlinear_arith)
            requires
                w > 0,
                n >= 1,
                k >= 1,
        ;
        if exact::whole((k - 1) * n) < m.samples_until_off.units() {
            lemma_over(b.samples_until_off, n);
            if exact::whole(k * n) < m.samples_until_off.units() {
                lemma_countdown(b.samples_until_off, n);
            }
        }
    }
    let before = waited(m, n, k, clock, s);
    if exact::whole(k * n) < m.samples_until_off.units() {
        lemma_over(before.samples_until_off, n);
    }
}

/// A gate is a share of a step: the note is held for that share of the samples in it.
pub proof fn law_a_gate_is_a_share_of_the_step(
    m: SeqModel,
    step: Step,
    s: SeqSettings,
    clock: ClockView,
    out: SeqOutput,
)
    requires
        s.gate.finite(),
        clock.samples_per_step.finite(),
        pow2(120) <= s.gate.units() <= exact::whole(4),
        exact::whole(1) <= clock.samples_per_step.units() <= exact::whole(0x0020_0000),
    ensures
        ({
            let held = m.triggered(step, s, clock, out).0.samples_until_off;
            &&& held.finite()
            &&& 0 < held.units() <= exact::whole(0x0080_0000)
            &&& exact::close(
                exact::whole(held.units()),
                s.gate.units() * clock.samples_per_step.units(),
                2,
            )
            &&& s.gate.units() <= exact::whole(1) ==> held.units()
                <= clock.samples_per_step.units()
        }),
{
    let (g, p) = (s.gate, clock.samples_per_step);
    let (u, v, w) = (g.units(), p.units(), pow2(149) as int);
    lemma2_to64();
    lemma2_to64_rest();
    lemma_pow2_pos(120);
    lemma_pow2_adds(29, 120);
    lemma_pow2_pos(97);
    lemma_pow2_adds(23, 97);
    exact::lemma_whole(0x0080_0000);
    let top = Single::nearest_to(0x0080_0000);
    assert(u * v <= (0x0080_0000 * w) * w && u * v >= HIDDEN * w && u * v >= pow2(120) * w
        && (u <= w ==> u * v <= v * w)) by (nonlinear_arith)
        requires
            HIDDEN <= pow2(120) <= u <= 4 * w,
            w <= v <= 0x0020_0000 * w,
            w > 0,
            HIDDEN == 0x0080_0000,
    ;
    let small = exact::lemma_scaled_whole(1, -29);
    assert(1 * bounds::over(-29, -149) == pow2(120));
    bounds::lemma_product_bounds(g, p, top);
    bounds::lemma_product_bounds(g, p, small);
    bounds::lemma_product_bounds(g, p, p);
    let held = g.product(p);
    single::law_order_is_numeric(held, top);
    single::law_order_is_numeric(small, held);
    single::law_order_is_numeric(held, p);
    exact::lemma_product_close(g, p);
}

/// A note started on a step and not cut short by another is held for its gate: still
/// sounding after so many blocks as do not take it there, and no longer after as many as
/// do.
pub proof fn law_a_started_note_is_held_for_its_gate(
    m: SeqModel,
    step: Step,
    s: SeqSettings,
    clock: ClockView,
    out: SeqOutput,
    n: int,
    k: nat,
)
    requires
        undisturbed(m, clock, s),
        m.pending is None,
        s.gate.finite(),
        clock.samples_per_step.finite(),
        pow2(120) <= s.gate.units() <= exact::whole(4),
        exact::whole(1) <= clock.samples_per_step.units() <= exact::whole(0x0020_0000),
        1 <= n < 0x0080_0000,
    ensures
        ({
            let started = m.triggered(step, s, clock, out).0;
            let later = waited(started, n, k, clock, s);
            let gate = s.gate.units() * clock.samples_per_step.units();
            let passed = exact::whole(exact::whole(k * n));
            &&& started.sounding == Some(step.note)
            &&& 0x0100_0000 * (gate - passed) > 2 * gate ==> later.sounding == Some(step.note)
            &&& 0x0100_0000 * (passed - gate) >= 2 * gate ==> later.sounding is None
        }),
{
    law_a_gate_is_a_share_of_the_step(m, step, s, clock, out);
    let started = m.triggered(step, s, clock, out).0;
    law_a_note_sounds_until_its_gate_runs_out(started, n, k, clock, s, step.note);
    let (c, w) = (started.samples_until_off.units(), pow2(149) as int);
    let (gate, passed) = (
        s.gate.units() * clock.samples_per_step.units(),
        exact::whole(exact::whole(k * n)),
    );
    lemma_pow2_pos(149);
    let here = exact::whole(k * n);
    if 0x0100_0000 * (gate - passed) > 2 * gate {
        assert(here < c) by (nonlinear_arith)
            requires
                0x0100_0000 * (gate - c * w) <= 2 * gate,
                0x0100_0000 * (gate - here * w) > 2 * gate,
                w > 0,
        ;
    }
    if 0x0100_0000 * (passed - gate) >= 2 * gate {
        assert(here >= c) by (nonlinear_arith)
            requires
                0x0100_0000 * (c * w - gate) <= 2 * gate,
                0x0100_0000 * (here * w - gate) >= 2 * gate,
                w > 0,
        ;
    }
}

/// A step plays what is written in it: an even step, or any without swing, at once, with
/// its own note, velocity, accent and tie; a rest plays nothing.
pub proof fn law_a_step_plays_what_is_written(
    m: SeqModel,
    s: SeqSettings,
    clock: ClockView,
    next: int,
)
    requires
        m.wf(),
        m.queued is None,
        m.length >= 2,
        match m.position {
            None => next == 0,
            Some(p) => p < m.length && next == (if p + 1 == m.length {
                0
            } else {
                p + 1
            }),
        },
    ensures
        ({
            let (after, out) = m.stepped(s, clock, SeqOutput::nothing());
            let step = m.pattern[next];
            &&& after.position == Some(next)
            &&& after.pattern == m.pattern
            &&& out.stepped
            &&& !step.active ==> out.note_on is None && out.note_off is None && after.sounding
                == m.sounding && after.pending == m.pending
            &&& step.active && (next % 2 == 0 || !of(0).below(s.swing)) ==> {
                &&& out.note_on == Some((step.note, step.velocity))
                &&& out.note_off == m.sounding
                &&& out.accent == step.accent
                &&& out.slide == step.slide
                &&& after.sounding == Some(step.note)
            }
        }),
{
    if let Some(p) = m.position {
        if p + 1 == m.length {
            vstd::arithmetic::div_mod::lemma_mod_self_0(m.length as int);
        } else {
            vstd::arithmetic::div_mod::lemma_small_mod((p + 1) as nat, m.length as nat);
        }
    }
    bounds::lemma_unit();
    assert(!of(0).below(of(0)));
}

/// Swing holds every second step back, by its share of the step.
pub proof fn law_swing_holds_every_second_step_back(
    m: SeqModel,
    s: SeqSettings,
    clock: ClockView,
    next: int,
)
    requires
        m.wf(),
        m.position == Some(next - 1),
        0 < next < m.length,
        next % 2 == 1,
        m.pattern[next].active,
        s.swing.finite(),
        clock.samples_per_step.finite(),
        pow2(120) <= s.swing.units() <= exact::whole(4),
        exact::whole(1) <= clock.samples_per_step.units() <= exact::whole(0x0020_0000),
    ensures
        ({
            let (after, out) = m.stepped(s, clock, SeqOutput::nothing());
            &&& out.note_on is None
            &&& out.note_off is None
            &&& after.sounding == m.sounding
            &&& after.pending matches Some(p) && {
                &&& p.step == m.pattern[next]
                &&& p.samples_remaining.finite()
                &&& 0 < p.samples_remaining.units() <= exact::whole(0x0080_0000)
                &&& exact::close(
                    exact::whole(p.samples_remaining.units()),
                    s.swing.units() * clock.samples_per_step.units(),
                    2,
                )
            }
        }),
{
    vstd::arithmetic::div_mod::lemma_small_mod(next as nat, m.length as nat);
    let gated = SeqSettings { gate: s.swing, ..s };
    law_a_gate_is_a_share_of_the_step(m, m.pattern[next], gated, clock, SeqOutput::nothing());
    bounds::lemma_unit();
    lemma_pow2_pos(120);
    single::law_order_is_numeric(of(0), s.swing);
    single::law_order_is_numeric(of(0), s.swing.product(clock.samples_per_step));
}

/// A note held back starts in the first block that takes the samples since its step to its
/// delay, and in none before it.
pub proof fn law_a_late_note_starts_when_its_delay_runs_out(
    m: SeqModel,
    n: int,
    k: nat,
    clock: ClockView,
    s: SeqSettings,
    late: Pending,
)
    requires
        undisturbed(m, clock, s),
        m.sounding is None,
        m.pending == Some(late),
        late.samples_remaining.finite(),
        0 < late.samples_remaining.units() <= exact::whole(0x0080_0000),
        1 <= n < 0x0080_0000,
        exact::whole(k * n) < late.samples_remaining.units(),
    ensures
        ({
            let before = waited(m, n, k, clock, s);
            let (after, out) = before.advanced(n, Advance { steps: 0 }, clock, s);
            let delay = late.samples_remaining.units();
            &&& undisturbed(before, clock, s)
            &&& before.sounding is None
            &&& before.pending matches Some(p) && p.step == late.step
                && p.samples_remaining.finite() && p.samples_remaining.units() == delay
                - exact::whole(k * n)
            &&& delay <= exact::whole((k + 1) * n) ==> {
                &&& out.note_on == Some((late.step.note, late.step.velocity))
                &&& after.sounding == Some(late.step.note)
                &&& after.pending is None
            }
            &&& delay > exact::whole((k + 1) * n) ==> out.note_on is None && after.sounding is None
        }),
    decreases k,
{
    let w = pow2(149) as int;
    lemma_pow2_pos(149);
    assert((k * n) * w + n * w == ((k + 1) * n) * w && (k * n) * w >= 0) by (nonlinear_arith)
        requires
            w > 0,
            n >= 1,
            k >= 0,
    ;
    if k == 0 {
        assert(0 * n == 0);
        assert(0 * w == 0);
    } else {
        assert(((k - 1) * n) * w + n * w == (k * n) * w && ((k - 1) * n) * w >= 0)
            by (nonlinear_arith)
            requires
                w > 0,
                n >= 1,
                k >= 1,
        ;
        law_a_late_note_starts_when_its_delay_runs_out(m, n, (k - 1) as nat, clock, s, late);
        let b = waited(m, n, (k - 1) as nat, clock, s);
        if let Some(p) = b.pending {
            lemma_over(p.samples_remaining, n);
            lemma_countdown(p.samples_remaining, n);
        }
    }
    let before = waited(m, n, k, clock, s);
    if let Some(p) = before.pending {
        lemma_over(p.samples_remaining, n);
    }
}

// --- The drums ---

/// A number cut off to an integer is less than one more than it.
proof fn lemma_cut_off(x: Single)
    requires
        x.finite(),
        !x.negative(),
        x.units() <= exact::whole(0x0100_0000),
    ensures
        exact::whole(x.truncated()) <= x.units() < exact::whole(x.truncated() + 1),
{
    let (m, e, w) = (x.mantissa(), x.exponent(), pow2(149) as int);
    bounds::lemma_weight(x);
    lemma_pow2_pos(149);
    lemma2_to64();
    if e >= 150 {
        let g = pow2((e - 150) as nat) as int;
        lemma_pow2_adds((e - 150) as nat, 149);
        let k = m * g;
        assert(x.units() == m * (g * w));
        assert(m * (g * w) == k * w && (k + 1) * w == k * w + w) by (nonlinear_arith)
            requires
                k == m * g,
        ;
        assert(k <= 0x0100_0000) by (nonlinear_arith)
            requires
                k * w <= 0x0100_0000 * w,
                w > 0,
        ;
    } else {
        let (g, h) = (pow2((e - 1) as nat) as int, pow2((150 - e) as nat) as int);
        lemma_pow2_adds((e - 1) as nat, (150 - e) as nat);
        lemma_pow2_pos((e - 1) as nat);
        lemma_pow2_pos((150 - e) as nat);
        assert(x.units() == m * g);
        let (q, r) = (m / h, m % h);
        assert(m == q * h + r && 0 <= r < h && 0 <= q) by (nonlinear_arith)
            requires
                q == m / h,
                r == m % h,
                h > 0,
                m >= 0,
        ;
        assert(q * w <= m * g && m * g < (q + 1) * w) by (nonlinear_arith)
            requires
                m == q * h + r,
                0 <= r < h,
                w == g * h,
                g > 0,
        ;
        assert(q <= m) by (nonlinear_arith)
            requires
                m == q * h + r,
                0 <= r,
                0 <= q,
                h >= 1,
        ;
    }
}

/// Drums swing too: every second column that has a hit is held back by the swing's share
/// of a step, to the sample, and every other is struck as it is reached.
pub proof fn law_drums_swing_every_second_column(
    m: DrumModel,
    clock: ClockView,
    swing: Single,
    next: int,
    pad: int,
)
    requires
        m.position == Some(next - 1),
        m.pending is None,
        0 < next < m.grid.len,
        0 <= pad < PAD_COUNT,
        m.grid.cells[next][pad].active,
        swing.finite(),
        clock.samples_per_step.finite(),
        pow2(120) <= swing.units() <= exact::whole(4),
        exact::whole(1) <= clock.samples_per_step.units() <= exact::whole(0x0020_0000),
    ensures
        ({
            let (after, out) = m.stepped(clock, swing, DrumHits::none());
            let share = swing.product(clock.samples_per_step);
            &&& after.position == Some(next)
            &&& next % 2 == 0 ==> {
                &&& after.pending is None
                &&& out.hits[pad] == m.grid.cells[next][pad].velocity
            }
            &&& next % 2 == 1 && share.units() >= pow2(149) ==> {
                &&& out.hits == DrumHits::none().hits
                &&& after.pending matches Some(w) && {
                    &&& w.column == m.grid.cells[next]
                    &&& exact::whole(w.samples_remaining) <= share.units() < exact::whole(
                        w.samples_remaining + 1,
                    )
                }
            }
            &&& exact::close(
                exact::whole(share.units()),
                swing.units() * clock.samples_per_step.units(),
                2,
            )
        }),
{
    let (s, n, w) = (swing.units(), clock.samples_per_step.units(), pow2(149) as int);
    let share = swing.product(clock.samples_per_step);
    let zero = of(0);
    vstd::arithmetic::div_mod::lemma_small_mod(next as nat, m.grid.len as nat);
    bounds::lemma_unit();
    lemma2_to64();
    lemma_pow2_pos(120);
    lemma_pow2_pos(97);
    lemma_pow2_adds(23, 97);
    lemma_pow2_pos(149);
    exact::lemma_whole(0x0080_0000);
    let top = Single::nearest_to(0x0080_0000);
    assert(s * n <= (0x0080_0000 * w) * w && s * n >= 0 * w && s * n >= HIDDEN * w)
        by (nonlinear_arith)
        requires
            HIDDEN <= s <= 4 * w,
            w <= n <= 0x0020_0000 * w,
            HIDDEN > 0,
    ;
    bounds::lemma_product_bounds(swing, clock.samples_per_step, top);
    bounds::lemma_product_bounds(swing, clock.samples_per_step, zero);
    single::law_order_is_numeric(share, top);
    exact::lemma_product_close(swing, clock.samples_per_step);
    assert(m.next_position() == next);
    assert(exists|i: int| 0 <= i < PAD_COUNT && (#[trigger] m.grid.cells[next][i]).active);
    if share.units() >= w {
        assert(!share.negative()) by {
            single::law_order_is_numeric(zero, share);
        }
        lemma_cut_off(share);
        let k = share.truncated();
        assert(k != 0) by (nonlinear_arith)
            requires
                w < (k + 1) * w || k == 0 && w < 1 * w,
                w > 0,
        ;
    }
}

/// A column waits its swing out: no block is too short to count, and it is struck in the
/// one that its delay ends in.
pub proof fn law_a_column_waits_its_swing_out(m: DrumModel, a: int, b: int)
    requires
        m.pending is Some,
        0 <= a < m.pending->0.samples_remaining,
        0 <= b,
    ensures
        m.swung(a).1 == DrumHits::none(),
        m.swung(a).0.swung(b) == m.swung(a + b),
        m.swung(m.pending->0.samples_remaining).0.pending is None,
        m.swung(m.pending->0.samples_remaining).1 == DrumHits::none().fired(m.pending->0.column),
{
}

} // verus!
