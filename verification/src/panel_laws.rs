//! What the knobs of the panel do to the sound.

use crate::band;
use crate::bass::{BassSettings, BassVoice};
use crate::bounds;
use crate::curve;
use crate::curve::Curve;
use crate::env;
use crate::env::{Adsr, AdsrSettings, EnvStage};
use crate::exact;
use crate::filter;
use crate::filter::{Filter, Slope, Svf, SvfMode};
use crate::lfo;
use crate::lfo::{Lfo, LfoTarget, LfoWave};
use crate::note;
use crate::order::Order;
use crate::params::{of, BassParams, Params};
use crate::sequencer::{GenerativeSettings, SeqSettings};
use crate::single;
use crate::single::{Single, HIDDEN};
use crate::sound_laws;
use crate::tone::{Modulation, Tone};
use vstd::arithmetic::power2::*;
use vstd::prelude::*;

verus! {

// --- The voice ---

/// A block's settings are the panel's: the times of both envelopes, the filter's kind and
/// steepness, and the widths of the pulses. The sub is always a square.
pub proof fn law_the_panel_reaches_the_voice<F: Fn(Curve, Single) -> Single>(
    f: F,
    t: Tone,
    p: Params,
    m: Modulation,
)
    requires
        of(0x3D4C_CCCD).at_most(m.pulse_width),
        m.pulse_width.at_most(of(0x3F73_3333)),
    ensures
        ({
            let r = t.readied(f, p, m);
            &&& r.amp_env.settings == p.amp_env
            &&& r.filter_env.settings == p.filter_env
            &&& r.amp_env.level == t.amp_env.level
            &&& r.amp_env.stage == t.amp_env.stage
            &&& r.filter.mode == p.filter_mode
            &&& r.filter.slope == p.filter_slope
            &&& r.osc1.pulse_width == m.pulse_width
            &&& r.osc2.pulse_width == m.pulse_width
            &&& 2 * r.sub.pulse_width.units() == pow2(149)
            &&& r.note == t.note
            &&& r.velocity == t.velocity
        }),
{
    bounds::lemma_small_wholes();
}

/// Whether a number is nothing.
pub open spec fn nothing(x: Single) -> bool {
    x.finite() && x.units() == 0
}

proof fn lemma_nothing_times(a: Single, b: Single)
    requires
        nothing(a),
        b.finite(),
    ensures
        nothing(a.product(b)),
{
    let w = pow2(149) as int;
    bounds::lemma_unit();
    assert(0 * w == 0 * b.units());
    exact::lemma_exact_product(a, b, of(0));
}

proof fn lemma_and_nothing(a: Single, b: Single)
    requires
        a.finite(),
        b.finite(),
        nothing(a) || nothing(b),
    ensures
        a.sum(b).finite(),
        a.sum(b).units() == a.units() + b.units(),
{
    if nothing(a) {
        exact::lemma_exact_sum(a, b, b);
    } else {
        exact::lemma_exact_sum(a, b, a);
    }
}

/// The key that a note tracks, in octaves from middle C.
proof fn lemma_key(n: u8)
    requires
        n <= 127,
    ensures
        Single::nearest_to(n as int).difference(of(0x4270_0000)).quotient(of(0x4140_0000)).finite(),
{
    note::lemma_steps();
    lemma_sixty();
    exact::lemma_whole(n as int);
    let (a, b) = (Single::nearest_to(n as int), of(0x4270_0000));
    let w = pow2(149) as int;
    lemma_pow2_pos(149);
    bounds::lemma_opposite(b);
    let k = n as int - 60;
    note::lemma_semitones(k);
    assert((n as int) * w + -(60 * w) == k * w) by (nonlinear_arith)
        requires
            k == n as int - 60,
    ;
    exact::lemma_exact_sum(a, b.opposite(), note::semitones(k));
    let d = a.difference(b);
    let (lo, hi) = (note::semitones(-100), note::semitones(100));
    note::lemma_semitones(-100);
    note::lemma_semitones(100);
    assert((k * w) * w <= (100 * w) * (12 * w) && (k * w) * w >= (-100 * w) * (12 * w))
        by (nonlinear_arith)
        requires
            -100 <= k <= 100,
            w > 0,
    ;
    bounds::lemma_quotient_bounds(d, of(0x4140_0000), lo);
    bounds::lemma_quotient_bounds(d, of(0x4140_0000), hi);
}

proof fn lemma_sixty()
    ensures
        of(0x4270_0000).finite(),
        of(0x4270_0000).units() == exact::whole(60),
{
    lemma2_to64();
    lemma_pow2_adds(18, 131);
    assert(0x4270_0000int / 0x0080_0000int == 132 && 0x4270_0000int % 0x0080_0000int == 0x0070_0000);
    assert(single::magnitude_units(0x4270_0000) == 0x00F0_0000 * pow2(131));
}

/// What opens a filter adds up in octaves. The envelope opens it by its amount, at full
/// level; the key by an octave for each octave above middle C, at full tracking; velocity
/// by twice its amount, at full velocity; and the modulation by what it is worth.
pub proof fn law_what_opens_a_filter(t: Tone, p: Params, m: Modulation, k: int, twice: Single)
    requires
        t.note <= 127,
        t.filter_env.level.finite(),
        t.velocity.finite(),
        p.filter_env_amount.finite(),
        p.filter_key_track.finite(),
        p.filter_velocity.finite(),
        m.cutoff.finite(),
    ensures
        nothing(p.filter_env_amount) && nothing(p.filter_key_track) && nothing(p.filter_velocity)
            ==> t.opening(p, m).units() == m.cutoff.units(),
        t.filter_env.level == of(0x3F80_0000) && nothing(p.filter_key_track) && nothing(
            p.filter_velocity,
        ) && nothing(m.cutoff) ==> t.opening(p, m).units() == p.filter_env_amount.units(),
        nothing(t.filter_env.level) && nothing(p.filter_key_track) && nothing(p.filter_velocity)
            && nothing(m.cutoff) ==> t.opening(p, m).units() == 0,
        p.filter_key_track == of(0x3F80_0000) && t.note == 60 + 12 * k && nothing(
            p.filter_env_amount,
        ) && nothing(p.filter_velocity) && nothing(m.cutoff) ==> t.opening(p, m).units()
            == exact::whole(k),
        t.velocity == of(0x3F80_0000) && twice.finite() && twice.units() == 2
            * p.filter_velocity.units() && nothing(p.filter_env_amount) && nothing(
            p.filter_key_track,
        ) && nothing(m.cutoff) ==> t.opening(p, m).units() == twice.units(),
        nothing(t.velocity) && nothing(p.filter_env_amount) && nothing(p.filter_key_track)
            && nothing(m.cutoff) ==> t.opening(p, m).units() == 0,
{
    let (one, two, w) = (of(0x3F80_0000), of(0x4000_0000), pow2(149) as int);
    lemma_key(t.note);
    let key = Single::nearest_to(t.note as int).difference(of(0x4270_0000)).quotient(
        of(0x4140_0000),
    );
    let a = p.filter_env_amount.product(t.filter_env.level);
    let b = p.filter_key_track.product(key);
    let touch = p.filter_velocity.product(t.velocity);
    let c = touch.product(two);
    bounds::lemma_unit();
    bounds::lemma_small_wholes();
    if nothing(p.filter_env_amount) {
        lemma_nothing_times(p.filter_env_amount, t.filter_env.level);
    }
    if nothing(t.filter_env.level) {
        assert(p.filter_env_amount.units() * 0 == 0 * w);
        exact::lemma_exact_product(p.filter_env_amount, t.filter_env.level, of(0));
    }
    if t.filter_env.level == one {
        exact::lemma_times_one(p.filter_env_amount);
    }
    if nothing(p.filter_key_track) {
        lemma_nothing_times(p.filter_key_track, key);
    }
    if nothing(p.filter_velocity) {
        lemma_nothing_times(p.filter_velocity, t.velocity);
        lemma_nothing_times(touch, two);
    }
    if nothing(t.velocity) {
        assert(p.filter_velocity.units() * 0 == 0 * w);
        exact::lemma_exact_product(p.filter_velocity, t.velocity, of(0));
        lemma_nothing_times(touch, two);
    }
    if t.velocity == one && twice.finite() && twice.units() == 2 * p.filter_velocity.units() {
        exact::lemma_times_one(p.filter_velocity);
        let u = p.filter_velocity.units();
        assert((2 * u) * w == u * (2 * w)) by (nonlinear_arith);
        exact::lemma_exact_product(p.filter_velocity, two, twice);
    }
    if p.filter_key_track == one && t.note == 60 + 12 * k {
        lemma_octaves_up(t.note, k);
        note::lemma_semitones(k);
        assert(w * (k * w) == (k * w) * w) by (nonlinear_arith);
        exact::lemma_exact_product(one, key, note::semitones(k));
    }
    if a.finite() && b.finite() && (nothing(a) || nothing(b)) {
        lemma_and_nothing(a, b);
        let d = a.sum(b);
        if c.finite() && (nothing(d) || nothing(c)) {
            lemma_and_nothing(d, c);
            let e = d.sum(c);
            if nothing(e) || nothing(m.cutoff) {
                lemma_and_nothing(e, m.cutoff);
            }
        }
    }
}

proof fn lemma_octaves_up(n: u8, k: int)
    requires
        n <= 127,
        n == 60 + 12 * k,
    ensures
        ({
            let key = Single::nearest_to(n as int).difference(of(0x4270_0000)).quotient(
                of(0x4140_0000),
            );
            key.finite() && key.units() == exact::whole(k)
        }),
{
    note::lemma_steps();
    lemma_sixty();
    exact::lemma_whole(n as int);
    let (a, b) = (Single::nearest_to(n as int), of(0x4270_0000));
    let w = pow2(149) as int;
    lemma_pow2_pos(149);
    bounds::lemma_opposite(b);
    note::lemma_semitones(12 * k);
    note::lemma_semitones(k);
    assert((n as int) * w + -(60 * w) == (12 * k) * w) by (nonlinear_arith)
        requires
            n as int == 60 + 12 * k,
    ;
    exact::lemma_exact_sum(a, b.opposite(), note::semitones(12 * k));
    assert((k * w) * (12 * w) == ((12 * k) * w) * w) by (nonlinear_arith);
    exact::lemma_exact_quotient(a.difference(b), of(0x4140_0000), note::semitones(k));
}

/// Whether a frequency is a knob's times a ratio, held to what can be heard.
pub open spec fn opened_to(hz: Single, knob: Single, ratio: Single) -> bool {
    let (low, high) = (exact::whole(20), exact::whole(20_000));
    let asked = knob.units() * ratio.units();
    &&& hz.finite()
    &&& low <= hz.units() <= high
    &&& asked <= exact::whole(low) ==> hz.units() == low
    &&& asked >= exact::whole(high) ==> hz.units() == high
    &&& exact::whole(low) <= asked <= exact::whole(high) ==> exact::close(
        exact::whole(hz.units()),
        asked,
        2,
    )
}

proof fn lemma_opened(knob: Single, ratio: Single)
    requires
        knob.finite(),
        ratio.finite(),
        knob.units() >= 0,
        ratio.units() >= 0,
    ensures
        opened_to(
            knob.product(ratio).clamped(of(0x41A0_0000), of(0x469C_4000)),
            knob,
            ratio,
        ),
{
    let (low, high) = (of(0x41A0_0000), of(0x469C_4000));
    lemma2_to64();
    lemma_pow2_pos(149);
    lemma_pow2_adds(19, 130);
    lemma_pow2_adds(9, 140);
    lemma_pow2_pos(126);
    lemma_pow2_adds(23, 126);
    assert(0x41A0_0000int / 0x0080_0000int == 131 && 0x41A0_0000int % 0x0080_0000int == 0x0020_0000);
    assert(0x469C_4000int / 0x0080_0000int == 141 && 0x469C_4000int % 0x0080_0000int == 0x001C_4000);
    assert(single::magnitude_units(0x41A0_0000) == 0x00A0_0000 * pow2(130));
    assert(single::magnitude_units(0x469C_4000) == 0x009C_4000 * pow2(140));
    assert(low.units() == exact::whole(20) && high.units() == exact::whole(20_000));
    let x = knob.product(ratio);
    bounds::lemma_product_bounds(knob, ratio, low);
    bounds::lemma_product_bounds(knob, ratio, high);
    let (u, w) = (knob.units() * ratio.units(), pow2(149) as int);
    assert((20 * w) * w >= HIDDEN * w) by (nonlinear_arith)
        requires
            w >= HIDDEN,
    ;
    if exact::whole(low.units()) <= u <= exact::whole(high.units()) {
        single::law_order_is_numeric(low, x);
        single::law_order_is_numeric(x, high);
        exact::lemma_product_close(knob, ratio);
    }
    if x.finite() {
        single::law_order_is_numeric(x, low);
        single::law_order_is_numeric(high, x);
        single::law_order_is_numeric(low, x);
        single::law_order_is_numeric(x, high);
    }
}

/// A voice's filter stands at the cutoff knob's frequency times two to the power of the
/// opening, within what can be heard, with the resonance of the panel.
pub proof fn law_a_voice_opens_its_filter_by_octaves<F: Fn(Curve, Single) -> Single>(
    f: F,
    t: Tone,
    p: Params,
    m: Modulation,
)
    requires
        p.cutoff.finite(),
        p.cutoff.units() >= 0,
        curve::at(f, Curve::TwoTo, t.opening(p, m)).finite(),
        curve::at(f, Curve::TwoTo, t.opening(p, m)).units() >= 0,
    ensures
        exists|hz: Single|
            {
                &&& opened_to(hz, p.cutoff, curve::at(f, Curve::TwoTo, t.opening(p, m)))
                &&& t.readied(f, p, m).filter == #[trigger] (Filter {
                    mode: p.filter_mode,
                    slope: p.filter_slope,
                    ..t.filter
                }).at_cutoff(f, hz, p.resonance)
            },
{
    let ratio = curve::at(f, Curve::TwoTo, t.opening(p, m));
    lemma_opened(p.cutoff, ratio);
    let hz = p.cutoff.product(ratio).clamped(of(0x41A0_0000), of(0x469C_4000));
    let g = Filter { mode: p.filter_mode, slope: p.filter_slope, ..t.filter };
    assert(t.readied(f, p, m).filter == g.at_cutoff(f, hz, p.resonance));
}

/// So does the bass's, opened by its sweep: by as many octaves as the panel says when the
/// sweep is at its height, and by none when it is over.
pub proof fn law_the_bass_opens_its_filter_by_octaves<F: Fn(Curve, Single) -> Single>(
    f: F,
    v: BassVoice,
    p: BassParams,
)
    requires
        ({
            let s = BassSettings::of_params(p);
            let octaves = s.env_mod.product(v.filter_env.advanced().level);
            &&& curve::at(f, Curve::TwoTo, octaves).finite()
            &&& curve::at(f, Curve::TwoTo, octaves).units() >= 0
        }),
    ensures
        exists|hz: Single, octaves: Single|
            {
                let s = BassSettings::of_params(p);
                let level = v.filter_env.advanced().level;
                &&& opened_to(hz, s.cutoff, #[trigger] curve::at(f, Curve::TwoTo, octaves))
                &&& v.opened(f, p).filter == #[trigger] v.filter.at_cutoff(
                    f,
                    hz,
                    BassSettings::of_params(p).resonance,
                )
                &&& level == of(0x3F80_0000) ==> octaves == s.env_mod
                &&& level == of(0) ==> octaves.magnitude() == 0
            },
{
    let s = BassSettings::of_params(p);
    let level = v.filter_env.advanced().level;
    let octaves = s.env_mod.product(level);
    let ratio = curve::at(f, Curve::TwoTo, octaves);
    crate::bass::law_no_nonsense_gets_through(p);
    bounds::lemma_unit();
    lemma_ends();
    single::law_order_is_numeric(of(0), s.cutoff);
    lemma_opened(s.cutoff, ratio);
    if level == of(0x3F80_0000) {
        exact::lemma_times_one(s.env_mod);
    }
    if level == of(0) {
        bounds::lemma_product_with_zero(s.env_mod, of(0));
    }
    let hz = s.cutoff.product(ratio).clamped(of(0x41A0_0000), of(0x469C_4000));
    assert(v.opened(f, p).filter == v.filter.at_cutoff(f, hz, s.resonance));
}

proof fn lemma_ends()
    ensures
        of(0x41A0_0000).finite(),
        of(0x41A0_0000).units() > 0,
{
    lemma_pow2_pos(130);
    assert(0x41A0_0000int / 0x0080_0000int == 131 && 0x41A0_0000int % 0x0080_0000int == 0x0020_0000);
    assert(single::magnitude_units(0x41A0_0000) == 0x00A0_0000 * pow2(130));
}

// --- Modulation ---

/// A modulation at no depth does nothing, whatever its target.
pub proof fn law_no_depth_is_no_modulation(target: LfoTarget, pulse_width: Single, lfo: Single)
    requires
        bounds::in_bipolar(lfo),
        of(0x3D4C_CCCD).at_most(pulse_width),
        pulse_width.at_most(of(0x3F73_3333)),
    ensures
        ({
            let m = Modulation::routed(target, pulse_width, lfo, of(0));
            &&& m.cutoff.units() == 0
            &&& m.pitch.units() == 0
            &&& m.amp.units() == pow2(149)
            &&& m.pulse_width.units() == pulse_width.units()
        }),
{
    let (zero, half, one, w) = (of(0), of(0x3F00_0000), of(0x3F80_0000), pow2(149) as int);
    bounds::lemma_unit();
    bounds::lemma_small_wholes();
    bounds::lemma_in_bipolar(lfo);
    assert(lfo.units() * 0 == 0 * w);
    exact::lemma_exact_product(lfo, zero, zero);
    let still = lfo.product(zero);
    assert(of(0x4080_0000).finite() && of(0x4140_0000).finite() && of(0x3EE6_6666).finite());
    lemma_nothing_times(still, of(0x4080_0000));
    lemma_nothing_times(still, of(0x4140_0000));
    lemma_nothing_times(still, of(0x3EE6_6666));
    lemma_wobble(lfo);
    let x = half.difference(half.product(lfo));
    bounds::lemma_in_unit(x);
    lemma_nothing_times(zero, x);
    bounds::lemma_opposite(zero.product(x));
    lemma_and_nothing(one, zero.product(x).opposite());
    let pw = pulse_width;
    bounds::lemma_in_unit(pw);
    assert(bounds::in_unit(pw));
    lemma_and_nothing(pw, still.product(of(0x3EE6_6666)));
    let y = pw.sum(still.product(of(0x3EE6_6666)));
    assert(of(0x3D4C_CCCD).finite() && of(0x3F73_3333).finite());
    single::law_order_is_numeric(of(0x3D4C_CCCD), pw);
    single::law_order_is_numeric(pw, of(0x3F73_3333));
    single::law_order_is_numeric(y, of(0x3D4C_CCCD));
    single::law_order_is_numeric(of(0x3F73_3333), y);
}

/// How far down the tremolo goes, as a share of its depth.
proof fn lemma_wobble(lfo: Single)
    requires
        bounds::in_bipolar(lfo),
    ensures
        bounds::in_unit(of(0x3F00_0000).difference(of(0x3F00_0000).product(lfo))),
        lfo.units() == pow2(149) ==> of(0x3F00_0000).difference(
            of(0x3F00_0000).product(lfo),
        ).units() == 0,
        lfo.units() == -pow2(149) ==> of(0x3F00_0000).difference(
            of(0x3F00_0000).product(lfo),
        ).units() == pow2(149),
{
    let (zero, half, one, w) = (of(0), of(0x3F00_0000), of(0x3F80_0000), pow2(149) as int);
    bounds::lemma_unit();
    bounds::lemma_small_wholes();
    bounds::lemma_in_bipolar(lfo);
    bounds::lemma_opposite(half);
    let (k, h) = (lfo.units(), half.units());
    assert(h * k <= h * w && h * k >= -(h * w) && -h * w == -(h * w) && h * (-w) == -h * w)
        by (nonlinear_arith)
        requires
            -w <= k <= w,
            h >= 0,
    ;
    let c = half.product(lfo);
    let less = half.opposite();
    bounds::lemma_product_bounds(half, lfo, half);
    bounds::lemma_product_bounds(half, lfo, less);
    single::law_order_is_numeric(c, half);
    single::law_order_is_numeric(less, c);
    bounds::lemma_opposite(c);
    bounds::lemma_sum_bounds(half, c.opposite(), one);
    bounds::lemma_sum_bounds(half, c.opposite(), zero);
    if k == w {
        exact::lemma_exact_product(half, lfo, half);
        exact::lemma_exact_sum(half, c.opposite(), zero);
    }
    if k == -w {
        exact::lemma_exact_product(half, lfo, less);
        exact::lemma_exact_sum(half, c.opposite(), one);
    }
}

/// A modulation swings as far one way as the other: turned round, it moves the cutoff and
/// the pitch as far in the other direction.
pub proof fn law_a_modulation_swings_evenly(
    target: LfoTarget,
    pulse_width: Single,
    lfo: Single,
    depth: Single,
)
    requires
        bounds::in_bipolar(lfo),
        bounds::in_unit(depth),
    ensures
        ({
            let m = Modulation::routed(target, pulse_width, lfo, depth);
            let n = Modulation::routed(target, pulse_width, lfo.opposite(), depth);
            &&& target == LfoTarget::Cutoff ==> n.cutoff == m.cutoff.opposite()
            &&& target == LfoTarget::Pitch ==> n.pitch == m.pitch.opposite()
        }),
{
    bounds::lemma_in_bipolar(lfo);
    bounds::lemma_in_unit(depth);
    bounds::lemma_product_opposite(lfo, depth);
    let (u, v, w) = (lfo.units(), depth.units(), pow2(149) as int);
    let (one, minus) = (of(0x3F80_0000), of(0xBF80_0000));
    bounds::lemma_unit();
    assert(u * v <= w * w && u * v >= -w * w) by (nonlinear_arith)
        requires
            -w <= u <= w,
            0 <= v <= w,
    ;
    bounds::lemma_product_bounds(lfo, depth, one);
    bounds::lemma_product_bounds(lfo, depth, minus);
    let x = lfo.product(depth);
    assert(of(0x4080_0000).finite() && of(0x4140_0000).finite());
    bounds::lemma_product_opposite(x, of(0x4080_0000));
    bounds::lemma_product_opposite(x, of(0x4140_0000));
}

/// At full depth a modulation moves the pitch by an octave at its height, the cutoff by
/// four, and leaves nothing of the level at its lowest.
pub proof fn law_a_full_modulation_spans(
    target: LfoTarget,
    pulse_width: Single,
    lfo: Single,
    depth: Single,
)
    requires
        bounds::in_unit(depth),
        lfo == of(0x3F80_0000) || lfo == of(0xBF80_0000),
    ensures
        ({
            let m = Modulation::routed(target, pulse_width, lfo, depth);
            let up = lfo == of(0x3F80_0000);
            let one = depth == of(0x3F80_0000);
            &&& target == LfoTarget::Pitch && one && up ==> m.pitch.units() == exact::whole(12)
            &&& target == LfoTarget::Cutoff && one && up ==> m.cutoff.units() == exact::whole(4)
            &&& target == LfoTarget::Amplitude && up ==> m.amp.units() == pow2(149)
            &&& target == LfoTarget::Amplitude && !up ==> bounds::rounded(
                m.amp,
                pow2(149) - depth.units(),
            )
        }),
{
    let (zero, half, one, w) = (of(0), of(0x3F00_0000), of(0x3F80_0000), pow2(149) as int);
    bounds::lemma_unit();
    bounds::lemma_small_wholes();
    note::lemma_steps();
    bounds::lemma_in_unit(depth);
    assert(bounds::in_bipolar(lfo));
    lemma_wobble(lfo);
    let x = half.difference(half.product(lfo));
    bounds::lemma_in_unit(x);
    bounds::lemma_opposite(one);
    if lfo == one {
        assert(depth.units() * 0 == 0 * w);
        exact::lemma_exact_product(depth, x, zero);
        bounds::lemma_opposite(depth.product(x));
        lemma_and_nothing(one, depth.product(x).opposite());
        if depth == one {
            exact::lemma_times_one(one);
            exact::lemma_exact_product(one, of(0x4140_0000), of(0x4140_0000));
            exact::lemma_exact_product(one, of(0x4080_0000), of(0x4080_0000));
        }
    } else {
        exact::lemma_exact_product(depth, x, depth);
        let y = depth.product(x);
        bounds::lemma_opposite(y);
        bounds::lemma_sum_bounds(one, y.opposite(), one);
        bounds::lemma_sum_bounds(one, y.opposite(), zero);
        bounds::lemma_in_unit(one.difference(y));
        bounds::lemma_sum_error(one, y.opposite());
    }
}

// --- The filter ---

/// A filter that has settled on a steady level: a lowpass and a notch pass it as it is, a
/// bandpass and a highpass pass nothing of it, and a peak turns it round; and the filter
/// stays settled.
pub proof fn law_a_settled_filter(s: Svf, x: Single)
    requires
        x.finite(),
        nothing(s.ic1eq),
        s.ic2eq == x,
        s.a1.finite(),
        s.a2.finite(),
        s.a3.finite(),
        s.k.finite(),
    ensures
        s.passed(x, SvfMode::Lowpass).units() == x.units(),
        s.passed(x, SvfMode::Bandpass).units() == 0,
        s.passed(x, SvfMode::Highpass).units() == 0,
        s.passed(x, SvfMode::Notch).units() == x.units(),
        s.passed(x, SvfMode::Peak).units() == -x.units(),
        s.passed(x, SvfMode::Bypass) == x,
{
    let w = pow2(149) as int;
    bounds::lemma_unit();
    bounds::lemma_opposite(x);
    exact::lemma_exact_sum(x, x.opposite(), of(0));
    let v3 = s.v3(x);
    assert(nothing(v3));
    assert(s.a1.units() * 0 == 0 * w && s.a2.units() * 0 == 0 * w && s.a3.units() * 0 == 0 * w);
    exact::lemma_exact_product(s.a1, s.ic1eq, of(0));
    exact::lemma_exact_product(s.a2, s.ic1eq, of(0));
    exact::lemma_exact_product(s.a2, v3, of(0));
    exact::lemma_exact_product(s.a3, v3, of(0));
    lemma_and_nothing(s.a1.product(s.ic1eq), s.a2.product(v3));
    lemma_and_nothing(s.ic2eq, s.a2.product(s.ic1eq));
    lemma_and_nothing(s.ic2eq.sum(s.a2.product(s.ic1eq)), s.a3.product(v3));
    let (band, low) = (s.band(x), s.low(x));
    assert(s.k.units() * 0 == 0 * w);
    exact::lemma_exact_product(s.k, band, of(0));
    let damped = s.k.product(band);
    bounds::lemma_opposite(damped);
    lemma_and_nothing(x, damped.opposite());
    let left = x.difference(damped);
    bounds::lemma_opposite(low);
    exact::lemma_exact_sum(left, low.opposite(), of(0));
    let high = s.high(x);
    lemma_and_nothing(high, low);
    lemma_and_nothing(high, low.opposite());
}

/// The steep slope is the gentle one twice: what comes out of it is what the second stage
/// makes of what comes out of the first.
pub proof fn law_the_steep_slope_is_the_gentle_one_twice(g: Filter, x: Single)
    ensures
        ({
            let gentle = Filter { slope: Slope::Db12, ..g };
            let second = Filter { slope: Slope::Db12, stage1: g.stage2, ..g };
            let steep = Filter { slope: Slope::Db24, ..g };
            let y = gentle.passed(x);
            &&& steep.passed(x) == second.passed(y)
            &&& steep.after(x).stage1 == gentle.after(x).stage1
            &&& steep.after(x).stage2 == second.after(y).stage1
            &&& gentle.after(x).stage2 == g.stage2
        }),
{
}

/// Damping is twice what resonance leaves of a whole, down to a fortieth of one, and the
/// second stage has that of half the resonance.
pub proof fn law_resonance_undoes_the_damping<F: Fn(Curve, Single) -> Single>(
    f: F,
    g: Filter,
    hz: Single,
    resonance: Single,
)
    requires
        bounds::in_unit(resonance),
    ensures
        ({
            let r = g.at_cutoff(f, hz, resonance);
            let (a, b) = (r.stage1.k, r.stage2.k);
            let u = resonance.units();
            let floor = of(0x3CCC_CCCD).units();
            &&& 2 * pow2(149) - 2 * u > 2 * floor ==> bounds::rounded(a, 2 * pow2(149) - 2 * u)
            &&& u == pow2(149) ==> a.units() == floor
            &&& floor <= a.units() <= 2 * pow2(149)
            &&& pow2(149) <= b.units() <= 2 * pow2(149)
            &&& a.units() <= b.units()
        }),
{
    lemma_damping(resonance);
    let half = of(0x3F00_0000);
    bounds::lemma_unit();
    bounds::lemma_small_wholes();
    bounds::lemma_in_unit(resonance);
    bounds::lemma_unit_product(resonance, half);
    let less = resonance.product(half);
    bounds::lemma_in_unit(less);
    let (u, h, w) = (resonance.units(), half.units(), pow2(149) as int);
    assert(u * h <= u * w && u * h <= h * w) by (nonlinear_arith)
        requires
            0 <= u <= w,
            2 * h == w,
    ;
    bounds::lemma_product_bounds(resonance, half, resonance);
    bounds::lemma_product_bounds(resonance, half, half);
    single::law_order_is_numeric(less, resonance);
    single::law_order_is_numeric(less, half);
    lemma_damping(less);
    lemma_damping_falls(less, resonance);
    lemma_damping_falls(less, half);
    lemma_damping(half);
    lemma_damping_of_half();
}

proof fn lemma_damping_of_half()
    ensures
        filter::damping(of(0x3F00_0000)).units() >= pow2(149),
{
    let (two, half, one) = (of(0x4000_0000), of(0x3F00_0000), of(0x3F80_0000));
    bounds::lemma_unit();
    bounds::lemma_small_wholes();
    exact::lemma_small_multiples(half);
    let x = two.product(half);
    bounds::lemma_opposite(x);
    exact::lemma_exact_sum(two, x.opposite(), one);
    assert(half.clamped(of(0), one) == half);
}

/// The least damping, as a number.
proof fn lemma_least_damping()
    ensures
        of(0x3CCC_CCCD).finite(),
        0 < 40 * of(0x3CCC_CCCD).units() <= 2 * pow2(149),
{
    lemma2_to64();
    lemma2_to64_rest();
    lemma_pow2_pos(120);
    lemma_pow2_adds(29, 120);
    assert(0x3CCC_CCCDint / 0x0080_0000int == 121 && 0x3CCC_CCCDint % 0x0080_0000int == 0x004C_CCCD);
    assert(single::magnitude_units(0x3CCC_CCCD) == 0x00CC_CCCD * pow2(120));
}

proof fn lemma_damping(resonance: Single)
    requires
        bounds::in_unit(resonance),
    ensures
        ({
            let d = filter::damping(resonance);
            let u = resonance.units();
            let floor = of(0x3CCC_CCCD).units();
            &&& d.finite()
            &&& floor <= d.units() <= 2 * pow2(149)
            &&& 2 * pow2(149) - 2 * u > 2 * floor ==> bounds::rounded(d, 2 * pow2(149) - 2 * u)
            &&& u == pow2(149) ==> d.units() == floor
        }),
{
    let (zero, one, two, least) = (of(0), of(0x3F80_0000), of(0x4000_0000), of(0x3CCC_CCCD));
    bounds::lemma_unit();
    bounds::lemma_small_wholes();
    bounds::lemma_in_unit(resonance);
    lemma_least_damping();
    exact::lemma_small_multiples(resonance);
    let x = two.product(resonance);
    bounds::lemma_opposite(x);
    let d = two.difference(x);
    bounds::lemma_sum_bounds(two, x.opposite(), zero);
    bounds::lemma_sum_bounds(two, x.opposite(), two);
    single::law_order_is_numeric(zero, d);
    single::law_order_is_numeric(d, two);
    bounds::lemma_sum_error(two, x.opposite());
    single::law_order_is_numeric(d, least);
}

proof fn lemma_damping_falls(a: Single, b: Single)
    requires
        bounds::in_unit(a),
        bounds::in_unit(b),
        a.units() <= b.units(),
    ensures
        filter::damping(b).units() <= filter::damping(a).units(),
{
    let (zero, one, two, least) = (of(0), of(0x3F80_0000), of(0x4000_0000), of(0x3CCC_CCCD));
    lemma_damping(a);
    lemma_damping(b);
    bounds::lemma_unit();
    bounds::lemma_small_wholes();
    bounds::lemma_in_unit(a);
    bounds::lemma_in_unit(b);
    lemma_least_damping();
    exact::lemma_small_multiples(a);
    exact::lemma_small_multiples(b);
    let (x, y) = (two.product(a), two.product(b));
    bounds::lemma_opposite(x);
    bounds::lemma_opposite(y);
    let (d, e) = (two.difference(x), two.difference(y));
    bounds::lemma_sum_bounds(two, x.opposite(), zero);
    bounds::lemma_sum_bounds(two, x.opposite(), two);
    bounds::lemma_sum_bounds(two, y.opposite(), zero);
    bounds::lemma_sum_bounds(two, y.opposite(), two);
    bounds::lemma_sums_ordered(two, y.opposite(), two, x.opposite());
    single::law_order_is_numeric(e, d);
    single::law_order_is_numeric(d, least);
    single::law_order_is_numeric(e, least);
}

/// The angle of a cutoff is half a turn times its share of the sample rate, half a turn
/// being 355 over 113 to within a ten-millionth: the tangent that a filter is tuned by.
pub proof fn law_a_cutoff_is_a_share_of_the_sample_rate<F: Fn(Curve, Single) -> Single>(
    f: F,
    g: Filter,
    hz: Single,
    resonance: Single,
)
    requires
        sound_laws::audible_rate(g.stage1.sample_rate),
        hz.finite(),
        exact::whole(10) <= hz.units() <= filter::cutoff_ceiling(g.stage1.sample_rate).units(),
        filter::cutoff_ceiling(g.stage1.sample_rate).finite(),
        hz.units() <= g.stage1.sample_rate.units(),
    ensures
        exists|angle: Single|
            {
                let r = g.at_cutoff(f, hz, resonance);
                &&& r.stage1.g == #[trigger] curve::at(f, Curve::Tangent, angle)
                &&& r.stage2.g == r.stage1.g
                &&& angle.finite()
                &&& exact::close(
                    angle.units() * g.stage1.sample_rate.units() * 113,
                    hz.units() * 355 * pow2(149),
                    8,
                )
            },
{
    let (sr, turn, zero) = (g.stage1.sample_rate, of(0x4049_0FDB), of(0));
    let (h, r, w) = (hz.units(), sr.units(), pow2(149) as int);
    let ten = of(0x4120_0000);
    bounds::lemma_unit();
    lemma2_to64();
    lemma2_to64_rest();
    lemma_pow2_pos(149);
    lemma_half_a_turn();
    let v = turn.units();
    let top = filter::cutoff_ceiling(sr);
    assert(hz.clamped(ten, top) == hz) by {
        single::law_order_is_numeric(hz, ten);
        single::law_order_is_numeric(top, hz);
    }
    let big = exact::lemma_scaled_whole(1, 24);
    assert(bounds::over(24, -149) == pow2(173));
    lemma_pow2_adds(24, 149);
    lemma_pow2_pos(97);
    lemma_pow2_adds(52, 97);
    assert(v * h <= (0x0100_0000 * w) * w && v * h >= HIDDEN * w && v * h >= 0 * w && v * h >= w * w)
        by (nonlinear_arith)
        requires
            w <= v <= 4 * w,
            10 * w <= h <= 0x0010_0000 * w,
            w >= HIDDEN,
            w > 0,
    ;
    let p = turn.product(hz);
    bounds::lemma_product_bounds(turn, hz, big);
    bounds::lemma_product_bounds(turn, hz, zero);
    bounds::lemma_product_bounds(turn, hz, of(0x3F80_0000));
    single::law_order_is_numeric(p, big);
    single::law_order_is_numeric(of(0x3F80_0000), p);
    exact::lemma_product_close(turn, hz);
    let u = p.units();
    assert(u * w >= HIDDEN * r && u * w <= (0x0100_0000 * w) * r && u * w >= 0 * r)
        by (nonlinear_arith)
        requires
            w <= u <= 0x0100_0000 * w,
            1000 * w <= r <= 0x0010_0000 * w,
            w >= HIDDEN * 0x0010_0000,
            HIDDEN == 0x0080_0000,
    ;
    let angle = p.quotient(sr);
    bounds::lemma_quotient_bounds(p, sr, big);
    bounds::lemma_quotient_bounds(p, sr, zero);
    exact::lemma_quotient_close(p, sr);
    let a = angle.units();
    // a * r is u * w, u * w is v * h, and v * 113 is 355 * w.
    exact::lemma_close_times(a * r, u * w, 2, 113);
    exact::lemma_close_times(u * w, v * h, 2, 113);
    exact::lemma_close_times(v * 113, 355 * w, 2, h);
    assert((v * h) * 113 == (v * 113) * h && (355 * w) * h == h * 355 * w) by (nonlinear_arith);
    assert(0 <= h * 355 * w) by (nonlinear_arith)
        requires
            0 <= h,
            0 < w,
    ;
    exact::lemma_close_chain((u * w) * 113, (v * h) * 113, 2, h * 355 * w, 2);
    exact::lemma_close_chain((a * r) * 113, (u * w) * 113, 2, h * 355 * w, 5);
    assert(g.at_cutoff(f, hz, resonance).stage1.g == curve::at(f, Curve::Tangent, angle));
}

proof fn lemma_half_a_turn()
    ensures
        of(0x4049_0FDB).finite(),
        pow2(149) <= of(0x4049_0FDB).units() <= exact::whole(4),
        exact::close(of(0x4049_0FDB).units() * 113, exact::whole(355), 2),
        of(0x4120_0000).finite(),
        of(0x4120_0000).units() == exact::whole(10),
{
    lemma2_to64();
    lemma_pow2_pos(127);
    lemma_pow2_adds(22, 127);
    lemma_pow2_adds(20, 129);
    assert(0x4049_0FDBint / 0x0080_0000int == 128 && 0x4049_0FDBint % 0x0080_0000int == 0x0049_0FDB);
    assert(single::magnitude_units(0x4049_0FDB) == 0x00C9_0FDB * pow2(127));
    assert(0x4120_0000int / 0x0080_0000int == 130 && 0x4120_0000int % 0x0080_0000int == 0x0020_0000);
    assert(single::magnitude_units(0x4120_0000) == 0x00A0_0000 * pow2(129));
}

// --- Envelopes ---

/// An envelope stops where it is meant to: its attack at one, its decay at the sustain
/// level, which it then holds, wherever the knob goes, and its release at nothing.
pub proof fn law_an_envelope_stops_where_it_is_meant_to(e: Adsr)
    requires
        bounds::in_unit(e.settings.sustain),
    ensures
        ({
            let n = e.advanced();
            &&& e.stage == EnvStage::Attack && n.stage != EnvStage::Attack ==> n.level.units()
                == pow2(149) && n.stage == EnvStage::Decay
            &&& e.stage == EnvStage::Decay && n.stage != EnvStage::Decay ==> n.level
                == e.settings.sustain
            &&& e.stage == EnvStage::Sustain ==> n.level == e.settings.sustain && n.stage
                == EnvStage::Sustain
            &&& e.stage == EnvStage::Release && n.stage != EnvStage::Release ==> n.level.units()
                == 0 && n.stage == EnvStage::Idle
            &&& e.stage == EnvStage::Idle ==> n == e
        }),
{
    bounds::lemma_unit();
}

/// Whether a coefficient is that of a stage that takes a time to go its way, given the
/// logarithm of that way: the exponential of a number which, times the samples in the
/// time, is minus that logarithm.
pub open spec fn stage_takes<F: Fn(Curve, Single) -> Single>(f: F, coef: Single, log: Single, time: int) -> bool {
    exists|x: Single|
        {
            &&& coef == #[trigger] curve::at(f, Curve::Exponential, x)
            &&& x.finite()
            &&& exact::close(-x.units() * time, log.units() * pow2(149) * pow2(149), 8)
        }
}

proof fn lemma_a_stage_takes_its_time<F: Fn(Curve, Single) -> Single>(
    f: F,
    seconds: Single,
    sample_rate: Single,
    overshoot: Single,
    log: Single,
)
    requires
        sound_laws::audible_rate(sample_rate),
        seconds.finite(),
        pow2(120) <= seconds.units() <= exact::whole(16),
        log == curve::at(
            f,
            Curve::Logarithm,
            of(0x3F80_0000).sum(overshoot).quotient(overshoot),
        ),
        log.finite(),
        exact::whole(1) <= log.units() <= exact::whole(16),
    ensures
        stage_takes(
            f,
            env::stage_coef(f, seconds, sample_rate, overshoot),
            log,
            seconds.units() * sample_rate.units(),
        ),
{
    let zero = of(0);
    let (s, r, k, w) = (seconds.units(), sample_rate.units(), log.units(), pow2(149) as int);
    bounds::lemma_unit();
    lemma2_to64();
    lemma2_to64_rest();
    lemma_pow2_pos(120);
    lemma_pow2_adds(29, 120);
    lemma_pow2_pos(97);
    lemma_pow2_adds(23, 97);
    lemma_pow2_pos(101);
    lemma_pow2_adds(48, 101);
    let big = exact::lemma_scaled_whole(1, 24);
    assert(bounds::over(24, -149) == pow2(173));
    lemma_pow2_adds(24, 149);
    let small = exact::lemma_scaled_whole(1, -20);
    assert(bounds::over(-20, -149) == pow2(129));
    lemma_pow2_adds(9, 120);
    lemma_pow2_adds(20, 129);
    assert(big.units() == 0x0100_0000 * w && small.units() == 512 * pow2(120)
        && w == 0x0010_0000 * small.units());
    let g = small.units();
    assert(s * r >= HIDDEN * w && s * r >= g * w && s * r <= (0x0100_0000 * w) * w)
        by (nonlinear_arith)
        requires
            pow2(120) <= s <= 16 * w,
            1000 * w <= r <= 0x0010_0000 * w,
            g == 512 * pow2(120),
            pow2(120) >= HIDDEN,
            HIDDEN == 0x0080_0000,
            w > 0,
    ;
    let n = seconds.product(sample_rate);
    bounds::lemma_product_bounds(seconds, sample_rate, big);
    bounds::lemma_product_bounds(seconds, sample_rate, small);
    single::law_order_is_numeric(n, big);
    single::law_order_is_numeric(small, n);
    single::law_order_is_numeric(n, zero);
    exact::lemma_product_close(seconds, sample_rate);
    let u = n.units();
    let most = exact::lemma_scaled_whole(1, 24);
    assert(k * w <= (0x0100_0000 * w) * u && k * w >= HIDDEN * u && k * w >= 0 * u)
        by (nonlinear_arith)
        requires
            w <= k <= 16 * w,
            g <= u <= 0x0100_0000 * w,
            w == 0x0010_0000 * g,
            w >= HIDDEN * 0x0100_0000,
            HIDDEN == 0x0080_0000,
            g > 0,
    ;
    bounds::lemma_quotient_bounds(log, n, big);
    bounds::lemma_quotient_bounds(log, n, zero);
    exact::lemma_quotient_close(log, n);
    let x = log.quotient(n);
    let q = x.units();
    // q * u is k * w, and u * w is s * r.
    exact::lemma_close_times(q * u, k * w, 2, w);
    exact::lemma_close_times(u * w, s * r, 2, q);
    let (top, low, end) = ((q * u) * w, (s * r) * q, (k * w) * w);
    assert((u * w) * q == top) by (nonlinear_arith)
        requires
            top == (q * u) * w,
    ;
    assert(0 <= low && 0 <= end) by (nonlinear_arith)
        requires
            low == (s * r) * q,
            end == (k * w) * w,
            0 <= s * r,
            0 <= q,
            0 <= k,
            0 < w,
    ;
    exact::lemma_close_back(top, low, 2);
    exact::lemma_close_chain(low, top, 3, end, 2);
    assert(n.magnitude() != 0);
    bounds::lemma_quotient_opposite(log, n);
    bounds::lemma_opposite(x);
    let y = log.opposite().quotient(n);
    assert(y == x.opposite());
    assert(-y.units() * (s * r) == low) by (nonlinear_arith)
        requires
            low == (s * r) * q,
            -y.units() == q,
    ;
    assert(6 * end <= 8 * end);
    assert(env::stage_coef(f, seconds, sample_rate, overshoot) == curve::at(
        f,
        Curve::Exponential,
        y,
    ));
}

/// The stages of a voice's envelopes take the times on the panel. The attack goes thirteen
/// parts of a way in the time that the last three would take it for ever, and the falls
/// ten thousand and one parts.
pub proof fn law_the_stages_take_their_times<F: Fn(Curve, Single) -> Single>(
    f: F,
    settings: AdsrSettings,
    sample_rate: Single,
)
    requires
        sound_laws::audible_rate(sample_rate),
        settings.attack.finite(),
        settings.decay.finite(),
        settings.release.finite(),
        pow2(120) <= settings.attack.units() <= exact::whole(16),
        pow2(120) <= settings.decay.units() <= exact::whole(16),
        pow2(120) <= settings.release.units() <= exact::whole(16),
        forall|x: Single|
            exact::whole(4) <= x.units() <= exact::whole(0x4000) ==> {
                &&& (#[trigger] curve::at(f, Curve::Logarithm, x)).finite()
                &&& exact::whole(1) <= curve::at(f, Curve::Logarithm, x).units()
                    <= exact::whole(16)
            },
    ensures
        ({
            let c = env::AdsrCoefs::of_times(f, settings, sample_rate);
            let r = sample_rate.units();
            &&& exists|x: Single|
                {
                    &&& exact::close(x.units() * 3, exact::whole(13), 8)
                    &&& stage_takes(
                        f,
                        c.attack,
                        #[trigger] curve::at(f, Curve::Logarithm, x),
                        settings.attack.units() * r,
                    )
                }
            &&& exists|x: Single|
                {
                    &&& exact::close(x.units(), exact::whole(10_001), 8)
                    &&& stage_takes(
                        f,
                        c.decay,
                        #[trigger] curve::at(f, Curve::Logarithm, x),
                        settings.decay.units() * r,
                    )
                    &&& stage_takes(
                        f,
                        c.release,
                        curve::at(f, Curve::Logarithm, x),
                        settings.release.units() * r,
                    )
                }
        }),
{
    lemma_overshoots();
    let (a, b) = (of(0x3E99_999A), of(0x38D1_B717));
    let (x, y) = (
        of(0x3F80_0000).sum(a).quotient(a),
        of(0x3F80_0000).sum(b).quotient(b),
    );
    lemma_pow2_pos(149);
    lemma_a_stage_takes_its_time(
        f,
        settings.attack,
        sample_rate,
        a,
        curve::at(f, Curve::Logarithm, x),
    );
    lemma_a_stage_takes_its_time(
        f,
        settings.decay,
        sample_rate,
        b,
        curve::at(f, Curve::Logarithm, y),
    );
    lemma_a_stage_takes_its_time(
        f,
        settings.release,
        sample_rate,
        b,
        curve::at(f, Curve::Logarithm, y),
    );
}

/// The parts of their way that stages go, as numbers.
proof fn lemma_overshoots()
    ensures
        ({
            let (a, b) = (of(0x3E99_999A), of(0x38D1_B717));
            let (x, y) = (
                of(0x3F80_0000).sum(a).quotient(a),
                of(0x3F80_0000).sum(b).quotient(b),
            );
            &&& exact::whole(4) <= x.units() <= exact::whole(0x4000)
            &&& exact::whole(4) <= y.units() <= exact::whole(0x4000)
            &&& exact::close(x.units() * 3, exact::whole(13), 8)
            &&& exact::close(y.units(), exact::whole(10_001), 8)
        }),
{
    let (one, a, b, w) = (of(0x3F80_0000), of(0x3E99_999A), of(0x38D1_B717), pow2(149) as int);
    bounds::lemma_unit();
    lemma2_to64();
    lemma2_to64_rest();
    lemma_pow2_pos(112);
    lemma_pow2_adds(37, 112);
    lemma_pow2_adds(12, 112);
    assert(0x38D1_B717int / 0x0080_0000int == 113 && 0x38D1_B717int % 0x0080_0000int == 0x0051_B717);
    assert(single::magnitude_units(0x38D1_B717) == 0x00D1_B717 * pow2(112));
    assert(0x3E99_999Aint / 0x0080_0000int == 125 && 0x3E99_999Aint % 0x0080_0000int == 0x0019_999A);
    assert(single::magnitude_units(0x3E99_999A) == 0x0099_999A * pow2(124));
    let g = pow2(112) as int;
    assert(w == 0x20_0000_0000 * g && b.units() == 0x00D1_B717 * g && a.units() == 0x0099_999A
        * (0x1000 * g));
    let two = of(0x4000_0000);
    bounds::lemma_small_wholes();
    bounds::lemma_sum_bounds(one, a, two);
    bounds::lemma_sum_bounds(one, b, two);
    bounds::lemma_sum_bounds(one, a, one);
    bounds::lemma_sum_bounds(one, b, one);
    let (s, t) = (one.sum(a), one.sum(b));
    single::law_order_is_numeric(s, two);
    single::law_order_is_numeric(t, two);
    single::law_order_is_numeric(one, s);
    single::law_order_is_numeric(one, t);
    bounds::lemma_sum_error(one, a);
    bounds::lemma_sum_error(one, b);
    lemma_ratio(s, a, w, g);
    lemma_ratio(t, b, w, g);
    let (x, y) = (s.quotient(a), t.quotient(b));
    // What the quotients are, over the numbers they come from.
    let (p, q) = (x.units(), y.units());
    assert(exact::close(p * 3, 13 * w, 8)) by {
        lemma_cancel(p, s.units(), a.units(), w, g, 3, 13, 0x0099_999A * 0x1000int);
    }
    assert(exact::close(q * 1, 10_001 * w, 8)) by {
        lemma_cancel(q, t.units(), b.units(), w, g, 1, 10_001, 0x00D1_B717);
    }
}

proof fn lemma_ratio(s: Single, a: Single, w: int, g: int)
    requires
        s.finite(),
        a.finite(),
        w == pow2(149),
        w == 0x20_0000_0000 * g,
        g > 0,
        w <= s.units() <= 2 * w,
        0x00D1_B717 * g <= a.units() <= w,
    ensures
        s.quotient(a).finite(),
        s.quotient(a).units() >= 0,
        exact::close(s.quotient(a).units() * a.units(), exact::whole(s.units()), 2),
{
    let big = exact::lemma_scaled_whole(1, 24);
    assert(bounds::over(24, -149) == pow2(173));
    lemma2_to64();
    lemma2_to64_rest();
    lemma_pow2_adds(24, 149);
    lemma_pow2_pos(100);
    lemma_pow2_adds(49, 100);
    let (u, v) = (s.units(), a.units());
    assert(u * w <= (0x0100_0000 * w) * v && u * w >= HIDDEN * v && u * w >= 0 * v)
        by (nonlinear_arith)
        requires
            w <= u <= 2 * w,
            0x00D1_B717 * g <= v <= w,
            w == 0x20_0000_0000 * g,
            w >= HIDDEN,
            g > 0,
    ;
    bounds::lemma_unit();
    bounds::lemma_quotient_bounds(s, a, big);
    bounds::lemma_quotient_bounds(s, a, of(0));
    exact::lemma_quotient_close(s, a);
}

/// A quotient by a number that is nearly a simple fraction.
proof fn lemma_cancel(p: int, s: int, a: int, w: int, g: int, m: int, n: int, c: int)
    requires
        exact::close(p * a, s * w, 2),
        a == c * g,
        w == 0x20_0000_0000 * g,
        g > 0,
        c > 0,
        0 < m,
        0 < n,
        exact::close(s * m, n * a, 3),
        0 <= p,
        0 <= s,
    ensures
        exact::close(p * m, n * w, 8),
{
    exact::lemma_close_times(p * a, s * w, 2, m);
    exact::lemma_close_times(s * m, n * a, 3, w);
    assert((p * a) * m == (p * m) * a && (s * w) * m == (s * m) * w && (n * a) * w == (n * w) * a)
        by (nonlinear_arith);
    assert(0 <= (n * w) * a && a > 0) by (nonlinear_arith)
        requires
            0 < n,
            w > 0,
            a == c * g,
            c > 0,
            g > 0,
    ;
    exact::lemma_close_chain((p * m) * a, (s * m) * w, 2, (n * w) * a, 3);
    exact::lemma_close_over(p * m, n * w, 6, a);
    assert(6 * (n * w) <= 8 * (n * w)) by (nonlinear_arith)
        requires
            0 < n,
            w > 0,
    ;
}

// --- The band ---

/// The wheel and the knob add, either way round, and the wheel alone reaches full depth.
pub proof fn law_the_wheel_adds_to_the_knob<F: Fn(Curve, Single) -> Single>(
    f: F,
    l: Lfo,
    p: Params,
    a: Single,
    b: Single,
)
    requires
        bounds::in_unit(a),
        bounds::in_unit(b),
        of(0).below(a),
    ensures
        band::modulation(f, l, Params { lfo_depth: a, mod_wheel: b, ..p }) == band::modulation(
            f,
            l,
            Params { lfo_depth: b, mod_wheel: a, ..p },
        ),
        band::modulation(f, l, Params { lfo_depth: b, mod_wheel: of(0x3F80_0000), ..p })
            == band::modulation(
            f,
            l,
            Params { lfo_depth: of(0x3F80_0000), mod_wheel: of(0), ..p },
        ),
{
    let (zero, one) = (of(0), of(0x3F80_0000));
    bounds::lemma_unit();
    bounds::lemma_in_unit(a);
    bounds::lemma_in_unit(b);
    single::law_order_is_numeric(zero, a);
    bounds::lemma_sum_is_nearest(a, b);
    bounds::lemma_sum_is_nearest(b, a);
    bounds::lemma_sum_bounds(a, b, a);
    exact::lemma_one_key(a.sum(b), b.sum(a));
    bounds::lemma_sum_bounds(b, one, one);
    bounds::lemma_sum_with_zero(one, zero);
    exact::lemma_one_key(one.sum(zero), one);
    let x = b.sum(one);
    if x.key() == one.key() {
        exact::lemma_one_key(x, one);
    }
    assert(x.smaller(one) == one);
}

/// The modulation is the shape on the panel: a square jumps between full swings at half of
/// its cycle, a ramp is as high as its cycle is far, and a held value is held.
pub proof fn law_the_modulation_has_its_shape<F: Fn(Curve, Single) -> Single>(
    f: F,
    l: Lfo,
    p: Params,
    g: F,
    x: Single,
)
    requires
        bounds::in_unit(lfo::turn(l.phase)),
        x.finite(),
        x.units() == 2 * lfo::turn(l.phase).units() - pow2(149),
        x.units() != 0,
    ensures
        ({
            let depth = p.lfo_depth.sum(p.mod_wheel).smaller(of(0x3F80_0000));
            let t = lfo::turn(l.phase);
            let m = band::modulation(f, l, p);
            &&& p.lfo_wave == LfoWave::Square && 2 * t.units() < pow2(149) ==> m
                == Modulation::routed(p.lfo_target, p.pulse_width, of(0x3F80_0000), depth)
            &&& p.lfo_wave == LfoWave::Square && 2 * t.units() > pow2(149) ==> m
                == Modulation::routed(p.lfo_target, p.pulse_width, of(0xBF80_0000), depth)
            &&& p.lfo_wave == LfoWave::Saw ==> m == Modulation::routed(
                p.lfo_target,
                p.pulse_width,
                x,
                depth,
            )
            &&& p.lfo_wave == LfoWave::SampleHold ==> m == Modulation::routed(
                p.lfo_target,
                p.pulse_width,
                l.current_random,
                depth,
            )
            &&& p.lfo_wave != LfoWave::Sine && p.lfo_wave != LfoWave::SmoothRandom ==> m
                == band::modulation(g, l, p)
        }),
{
    let (t, half, one) = (lfo::turn(l.phase), of(0x3F00_0000), of(0x3F80_0000));
    bounds::lemma_unit();
    bounds::lemma_small_wholes();
    bounds::lemma_in_unit(t);
    single::law_order_is_numeric(t, half);
    exact::lemma_small_multiples(t);
    bounds::lemma_opposite(one);
    exact::lemma_exact_sum(of(0x4000_0000).product(t), one.opposite(), x);
}

/// A sine goes round once in a cycle: its angle is its phase's share of a whole turn, a
/// turn being 710 over 113 to within a ten-millionth.
pub proof fn law_a_slow_sine_goes_round_once_a_cycle<F: Fn(Curve, Single) -> Single>(
    f: F,
    l: Lfo,
    p: Params,
)
    requires
        bounds::in_unit(lfo::turn(l.phase)),
        pow2(126) <= lfo::turn(l.phase).units(),
        p.lfo_wave == LfoWave::Sine,
    ensures
        exists|angle: Single|
            {
                let depth = p.lfo_depth.sum(p.mod_wheel).smaller(of(0x3F80_0000));
                &&& band::modulation(f, l, p) == Modulation::routed(
                    p.lfo_target,
                    p.pulse_width,
                    #[trigger] curve::at(f, Curve::Sine, angle),
                    depth,
                )
                &&& exact::close(
                    angle.units() * 113,
                    lfo::turn(l.phase).units() * 710,
                    8,
                )
            },
{
    let t = lfo::turn(l.phase);
    lemma_share_of_a_turn(t);
    assert(band::lfo_curve(f, l, p.lfo_wave) == curve::at(
        f,
        Curve::Sine,
        t.product(of(0x40C9_0FDB)),
    ));
}

/// A share of a whole turn.
pub proof fn lemma_share_of_a_turn(t: Single)
    requires
        bounds::in_unit(t),
        pow2(126) <= t.units(),
    ensures
        exact::close(t.product(of(0x40C9_0FDB)).units() * 113, t.units() * 710, 8),
{
    let (turn, zero) = (of(0x40C9_0FDB), of(0));
    let (u, v, w) = (t.units(), turn.units(), pow2(149) as int);
    bounds::lemma_unit();
    bounds::lemma_in_unit(t);
    lemma2_to64();
    lemma_pow2_pos(126);
    lemma_pow2_adds(23, 126);
    lemma_a_turn();
    lemma_pow2_pos(103);
    lemma_pow2_adds(23, 103);
    let eight = exact::lemma_scaled_whole(8, 0);
    assert(bounds::over(0, -149) == pow2(149));
    assert(u * v <= (8 * w) * w && u * v >= 0 * w && u * v >= HIDDEN * w) by (nonlinear_arith)
        requires
            HIDDEN <= u <= w,
            w <= v <= 8 * w,
            HIDDEN > 0,
    ;
    bounds::lemma_product_bounds(t, turn, eight);
    bounds::lemma_product_bounds(t, turn, zero);
    exact::lemma_product_close(t, turn);
    let angle = t.product(turn);
    let a = angle.units();
    // a * w is u * v, and v * 113 is 710 * w.
    exact::lemma_close_times(a * w, u * v, 2, 113);
    exact::lemma_close_times(v * 113, 710 * w, 2, u);
    assert((u * v) * 113 == (v * 113) * u && (710 * w) * u == (u * 710) * w && (a * w) * 113 == (a
        * 113) * w && 0 <= (u * 710) * w) by (nonlinear_arith)
        requires
            u >= 0,
            w >= 0,
    ;
    exact::lemma_close_chain((a * 113) * w, (u * v) * 113, 2, (u * 710) * w, 2);
    exact::lemma_close_over(a * 113, u * 710, 5, w);
    assert(5 * (u * 710) <= 8 * (u * 710));
}

proof fn lemma_a_turn()
    ensures
        of(0x40C9_0FDB).finite(),
        pow2(149) <= of(0x40C9_0FDB).units() <= exact::whole(8),
        exact::close(of(0x40C9_0FDB).units() * 113, exact::whole(710), 2),
{
    lemma2_to64();
    lemma_pow2_pos(128);
    lemma_pow2_adds(21, 128);
    assert(0x40C9_0FDBint / 0x0080_0000int == 129 && 0x40C9_0FDBint % 0x0080_0000int == 0x0049_0FDB);
    assert(single::magnitude_units(0x40C9_0FDB) == 0x00C9_0FDB * pow2(128));
}

/// A patch that restarts its modulation gives every note the same: wherever the cycle was,
/// a note that starts finds it at its start.
pub proof fn law_every_note_gets_the_same_modulation(
    l: Lfo,
    m: Lfo,
    orders: Seq<Order>,
    i: int,
    p: Params,
)
    requires
        p.lfo_retrigger,
        0 <= i < orders.len(),
        orders[i] is StartVoice || orders[i] is StealVoice,
    ensures
        band::lfo_after(l, orders, orders.len() as int, p).phase == band::lfo_after(
            m,
            orders,
            orders.len() as int,
            p,
        ).phase,
        band::lfo_after(l, orders, orders.len() as int, p).phase.bits == 0,
{
    lemma_starts(orders, i, orders.len() as int);
}

proof fn lemma_starts(orders: Seq<Order>, i: int, n: int)
    requires
        0 <= i < n <= orders.len(),
        band::starts(orders[i]),
    ensures
        band::any_starts(orders, n),
    decreases n,
{
    if i < n - 1 {
        lemma_starts(orders, i, n - 1);
    }
}

// --- The lines ---

/// The bass line has its own length and the melody's feel: neither's length is heard in
/// the other, and a gate or a swing turned for one is turned for both.
pub proof fn law_the_bass_line_shares_the_feel(p: Params, other: usize)
    ensures
        SeqSettings::of_bass(p).gate == p.seq_gate,
        SeqSettings::of_melody(p).gate == p.seq_gate,
        SeqSettings::of_bass(p).swing == p.seq_swing,
        SeqSettings::of_melody(p).swing == p.seq_swing,
        SeqSettings::of_bass(Params { seq_length: other, ..p }) == SeqSettings::of_bass(p),
        SeqSettings::of_melody(Params { bass_seq_length: other, ..p }) == SeqSettings::of_melody(p),
        SeqSettings::of_melody(Params { seq_length: other, ..p }).length == other,
        SeqSettings::of_bass(Params { bass_seq_length: other, ..p }).length == other,
{
}

/// The bass line is written in the melody's key and scale, and otherwise by its own
/// knobs: no other knob of the melody's is heard in it, nor one of its own in the melody.
pub proof fn law_the_bass_line_is_in_the_same_key(p: Params, q: Params)
    requires
        p.gen_root == q.gen_root,
        p.gen_scale == q.gen_scale,
    ensures
        GenerativeSettings::of_bass(p).root == p.gen_root,
        GenerativeSettings::of_melody(p).root == p.gen_root,
        GenerativeSettings::of_bass(p).scale == p.gen_scale,
        GenerativeSettings::of_melody(p).scale == p.gen_scale,
        (p.bass_gen_octave == q.bass_gen_octave && p.bass_gen_range == q.bass_gen_range
            && p.bass_gen_density == q.bass_gen_density && p.bass_gen_max_jump
            == q.bass_gen_max_jump && p.bass_gen_chord_bias == q.bass_gen_chord_bias
            && p.bass_seq_length == q.bass_seq_length) ==> GenerativeSettings::of_bass(p)
            == GenerativeSettings::of_bass(q),
        (p.gen_octave == q.gen_octave && p.gen_range == q.gen_range && p.gen_density
            == q.gen_density && p.gen_max_jump == q.gen_max_jump && p.gen_chord_bias
            == q.gen_chord_bias && p.seq_length == q.seq_length)
            ==> GenerativeSettings::of_melody(p) == GenerativeSettings::of_melody(q),
{
}

/// A bass patch within its ranges is taken at its word.
pub proof fn law_a_bass_in_range_is_taken_at_its_word(p: BassParams)
    requires
        of(0xC140_0000).at_most(p.tune) && p.tune.at_most(of(0x4140_0000)),
        of(0x41A0_0000).at_most(p.cutoff) && p.cutoff.at_most(of(0x469C_4000)),
        bounds::in_unit(p.resonance),
        of(0).at_most(p.env_mod) && p.env_mod.at_most(of(0x40C0_0000)),
        of(0x3CA3_D70A).at_most(p.decay) && p.decay.at_most(of(0x4000_0000)),
    ensures
        ({
            let s = BassSettings::of_params(p);
            &&& s.tune == p.tune
            &&& s.cutoff == p.cutoff
            &&& s.resonance == p.resonance
            &&& s.env_mod == p.env_mod
            &&& s.decay == p.decay
        }),
{
}

} // verus!
