//! What holds of the instruments: how they are tuned, what they hand their filters, and how
//! long they ring.

use crate::bass::BassVoice;
use crate::bounds;
use crate::curve;
use crate::curve::Curve;
use crate::drums::pad::Pad;
use crate::drums::voice;
use crate::drums::voice::DrumVoice;
use crate::exact;
use crate::note;
use crate::osc;
use crate::osc::{Oscillator, Waveform};
use crate::output;
use crate::params::{of, BassParams, Params};
use crate::single;
use crate::single::{Single, HIDDEN};
use crate::tone;
use crate::tone::{Modulation, Sines, Tone};
use vstd::arithmetic::power2::*;
use vstd::prelude::*;

verus! {

// --- Tuning ---

/// Pitches of one value have one frequency.
proof fn lemma_frequency_by_value<F: Fn(Curve, Single) -> Single>(f: F, a: Single, b: Single)
    requires
        a.finite(),
        b.finite(),
        a.units() == b.units(),
    ensures
        note::frequency(f, a) == note::frequency(f, b),
{
    note::lemma_steps();
    let c = of(0x428A_0000);
    bounds::lemma_opposite(c);
    exact::lemma_sum_by_value(a, b, c.opposite());
    if a.sum(c.opposite()).key() == 0 {
        bounds::lemma_sum_error_of_nothing(a, c.opposite());
        lemma_pow2_pos(149);
        note::lemma_same_value(a, b);
    }
}

/// Whole numbers of semitones add up.
pub proof fn lemma_whole_sum(a: Single, i: int, b: Single, j: int)
    requires
        a.finite(),
        b.finite(),
        a.units() == exact::whole(i),
        b.units() == exact::whole(j),
        -0x0080_0000 < i < 0x0080_0000,
        -0x0080_0000 < j < 0x0080_0000,
    ensures
        a.sum(b).finite(),
        a.sum(b).units() == exact::whole(i + j),
{
    note::lemma_semitones(i + j);
    let w = pow2(149) as int;
    assert(i * w + j * w == (i + j) * w) by (nonlinear_arith);
    exact::lemma_exact_sum(a, b, note::semitones(i + j));
}

/// Whether a voice sounds a note with no glide: its pitch is that note.
pub open spec fn steady(t: Tone, note: int) -> bool {
    &&& t.target_pitch.finite()
    &&& t.target_pitch.units() == exact::whole(note)
    &&& !of(0).below(t.glide_coef)
}

/// Whether a number is a whole number of semitones.
pub open spec fn shift(x: Single, k: int) -> bool {
    &&& x.finite()
    &&& x.units() == exact::whole(k)
    &&& -1000 < k < 1000
}

/// What the pitch of a voice comes to: the note, the bend and the vibrato together.
proof fn lemma_base(t: Tone, p: Params, m: Modulation, note: int, bend: int, vibrato: int)
    requires
        steady(t, note),
        -1000 < note < 1000,
        shift(p.pitch_bend, bend),
        shift(m.pitch, vibrato),
    ensures
        ({
            let base = t.slid().sum(p.pitch_bend.sum(m.pitch));
            base.finite() && base.units() == exact::whole(note + bend + vibrato)
        }),
{
    lemma_whole_sum(p.pitch_bend, bend, m.pitch, vibrato);
    lemma_whole_sum(t.slid(), note, p.pitch_bend.sum(m.pitch), bend + vibrato);
    assert(note + (bend + vibrato) == note + bend + vibrato);
}

/// A frequency times one tunes an oscillator as the frequency does.
proof fn lemma_tuned_by_one(o: Oscillator, hz: Single)
    ensures
        o.tuned(hz.product(of(0x3F80_0000))) == o.tuned(hz),
{
    if hz.nan() {
        assert(hz.product(of(0x3F80_0000)).nan()) by {
            reveal(Single::product);
        }
        reveal(Single::quotient);
    } else {
        exact::lemma_times_one(hz);
    }
}

/// Wherever a pitch is, the sub plays what the first oscillator would with its own knob
/// twelve semitones down and no detune.
pub proof fn law_the_sub_is_a_first_oscillator_an_octave_down<F: Fn(Curve, Single) -> Single>(
    f: F,
    t: Tone,
    p: Params,
    m: Modulation,
)
    requires
        t.sub.sample_rate == t.osc1.sample_rate,
        note::ratio_of_cents(f, of(0)) == of(0x3F80_0000),
    ensures
        ({
            let low = Params {
                osc1_semitones: note::semitones(-12),
                osc1_detune: of(0),
                ..p
            };
            t.pitched(f, p, m).sub.dt == t.pitched(f, low, m).osc1.dt
        }),
{
    note::lemma_steps();
    let twelve = of(0x4140_0000);
    assert(note::semitones(-12) == twelve.opposite());
    let base = t.slid().sum(p.pitch_bend.sum(m.pitch));
    let hz = note::frequency(f, base.sum(twelve.opposite()));
    lemma_tuned_by_one(t.osc1, hz);
}

/// The sub of a voice sounds an octave below its note: as high as the first oscillator of
/// a voice that plays the note twelve semitones lower.
pub proof fn law_the_sub_sounds_the_note_an_octave_below<F: Fn(Curve, Single) -> Single>(
    f: F,
    t: Tone,
    low: Tone,
    p: Params,
    m: Modulation,
    note: int,
)
    requires
        0 <= note - 12 < note <= 127,
        steady(t, note),
        steady(low, note - 12),
        shift(p.pitch_bend, 0),
        shift(m.pitch, 0),
        shift(p.osc1_semitones, 0),
        p.osc1_detune == of(0),
        t.sub.sample_rate == low.osc1.sample_rate,
        note::ratio_of_cents(f, of(0)) == of(0x3F80_0000),
    ensures
        t.pitched(f, p, m).sub.dt == low.pitched(f, p, m).osc1.dt,
{
    note::lemma_steps();
    let twelve = of(0x4140_0000);
    bounds::lemma_opposite(twelve);
    lemma_base(t, p, m, note, 0, 0);
    lemma_base(low, p, m, note - 12, 0, 0);
    let (high, deep) = (
        t.slid().sum(p.pitch_bend.sum(m.pitch)),
        low.slid().sum(p.pitch_bend.sum(m.pitch)),
    );
    let w = pow2(149) as int;
    assert(-(12 * w) == (-12) * w) by (nonlinear_arith);
    lemma_whole_sum(high, note, twelve.opposite(), -12);
    lemma_whole_sum(deep, note - 12, p.osc1_semitones, 0);
    lemma_frequency_by_value(f, high.sum(twelve.opposite()), deep.sum(p.osc1_semitones));
    let hz = note::frequency(f, deep.sum(p.osc1_semitones));
    lemma_tuned_by_one(low.osc1, hz);
}

/// The note, the bend, the vibrato and an oscillator's own knob add up in semitones: it
/// makes no difference which of them a semitone comes from.
pub proof fn law_semitones_add_up<F: Fn(Curve, Single) -> Single>(
    f: F,
    t: Tone,
    u: Tone,
    p: Params,
    q: Params,
    m: Modulation,
    still: Modulation,
    note: int,
    bend: int,
    vibrato: int,
    knob: int,
)
    requires
        -1000 < note < 1000,
        -1000 < note + bend + vibrato + knob < 1000,
        steady(t, note),
        shift(p.pitch_bend, bend),
        shift(m.pitch, vibrato),
        shift(p.osc1_semitones, knob),
        shift(p.osc2_semitones, knob),
        steady(u, note + bend + vibrato + knob),
        shift(q.pitch_bend, 0),
        shift(still.pitch, 0),
        shift(q.osc1_semitones, 0),
        shift(q.osc2_semitones, 0),
        q.osc1_detune == p.osc1_detune,
        q.osc2_detune == p.osc2_detune,
        u.osc1 == t.osc1,
        u.osc2 == t.osc2,
    ensures
        t.pitched(f, p, m).osc1 == u.pitched(f, q, still).osc1,
        t.pitched(f, p, m).osc2 == u.pitched(f, q, still).osc2,
{
    lemma_base(t, p, m, note, bend, vibrato);
    lemma_base(u, q, still, note + bend + vibrato + knob, 0, 0);
    let x = t.slid().sum(p.pitch_bend.sum(m.pitch));
    let y = u.slid().sum(q.pitch_bend.sum(still.pitch));
    lemma_whole_sum(x, note + bend + vibrato, p.osc1_semitones, knob);
    lemma_whole_sum(x, note + bend + vibrato, p.osc2_semitones, knob);
    lemma_whole_sum(y, note + bend + vibrato + knob, q.osc1_semitones, 0);
    lemma_whole_sum(y, note + bend + vibrato + knob, q.osc2_semitones, 0);
    lemma_frequency_by_value(f, x.sum(p.osc1_semitones), y.sum(q.osc1_semitones));
    lemma_frequency_by_value(f, x.sum(p.osc2_semitones), y.sum(q.osc2_semitones));
}

/// A first oscillator that is not detuned sounds the note itself.
pub proof fn law_a_plain_oscillator_sounds_the_note<F: Fn(Curve, Single) -> Single>(
    f: F,
    t: Tone,
    p: Params,
    m: Modulation,
    note: int,
)
    requires
        0 <= note <= 127,
        steady(t, note),
        shift(p.pitch_bend, 0),
        shift(m.pitch, 0),
        shift(p.osc1_semitones, 0),
        p.osc1_detune == of(0),
        note::ratio_of_cents(f, of(0)) == of(0x3F80_0000),
        !note::frequency(f, Single::nearest_to(note)).nan(),
    ensures
        t.pitched(f, p, m).osc1 == t.osc1.tuned(note::frequency(f, Single::nearest_to(note))),
        t.pitched(f, p, m).pitch == t.target_pitch,
{
    lemma_base(t, p, m, note, 0, 0);
    let x = t.slid().sum(p.pitch_bend.sum(m.pitch));
    lemma_whole_sum(x, note, p.osc1_semitones, 0);
    exact::lemma_whole(note);
    lemma_frequency_by_value(f, x.sum(p.osc1_semitones), Single::nearest_to(note));
    exact::lemma_times_one(note::frequency(f, Single::nearest_to(note)));
}

/// The two oscillators are alike: with their knobs exchanged, each is tuned as the other
/// was.
pub proof fn law_the_oscillators_are_alike<F: Fn(Curve, Single) -> Single>(
    f: F,
    t: Tone,
    p: Params,
    m: Modulation,
)
    requires
        t.osc1.sample_rate == t.osc2.sample_rate,
    ensures
        ({
            let q = Params {
                osc1_semitones: p.osc2_semitones,
                osc1_detune: p.osc2_detune,
                osc2_semitones: p.osc1_semitones,
                osc2_detune: p.osc1_detune,
                ..p
            };
            &&& t.pitched(f, p, m).osc1.dt == t.pitched(f, q, m).osc2.dt
            &&& t.pitched(f, p, m).osc2.dt == t.pitched(f, q, m).osc1.dt
        }),
{
}

// --- Sources ---

/// A whole turn, as a number.
proof fn lemma_a_whole_turn()
    ensures
        of(0x40C9_0FDB).finite(),
        pow2(149) <= of(0x40C9_0FDB).units() <= exact::whole(7),
        exact::close(of(0x40C9_0FDB).units() * 113, exact::whole(710), 2),
{
    lemma2_to64();
    lemma_pow2_pos(128);
    lemma_pow2_adds(21, 128);
    assert(0x40C9_0FDBint / 0x0080_0000int == 129 && 0x40C9_0FDBint % 0x0080_0000int == 0x0049_0FDB);
    assert(single::magnitude_units(0x40C9_0FDB) == 0x00C9_0FDB * pow2(128));
}

/// The sine at an oscillator's phase is the sine of that part of a whole turn: of 2 pi,
/// which 710 over 113 is to within a ten-millionth, times the phase.
pub proof fn law_a_sine_goes_round_once_a_cycle<F: Fn(Curve, Single) -> Single>(f: F, o: Oscillator)
    requires
        bounds::in_unit(o.phase),
        pow2(100) <= o.phase.units(),
    ensures
        exists|angle: Single|
            {
                &&& tone::sine_for(f, o, Waveform::Sine) == #[trigger] curve::at(
                    f,
                    Curve::Sine,
                    angle,
                )
                &&& angle.finite()
                &&& exact::close(angle.units() * 113, o.phase.units() * 710, 6)
            },
{
    let (t, turn, seven) = (o.phase, of(0x40C9_0FDB), Single::nearest_to(7));
    let (u, w) = (t.units(), pow2(149) as int);
    bounds::lemma_in_unit(t);
    exact::lemma_whole(7);
    lemma2_to64();
    lemma_pow2_pos(149);
    lemma_pow2_pos(77);
    lemma_pow2_adds(23, 77);
    lemma_a_whole_turn();
    let v = turn.units();
    assert(u * v <= (7 * w) * w && u * v >= HIDDEN * w) by (nonlinear_arith)
        requires
            HIDDEN <= u <= w,
            w <= v <= 7 * w,
            HIDDEN == 0x0080_0000,
    ;
    bounds::lemma_product_bounds(t, turn, seven);
    let angle = t.product(turn);
    bounds::lemma_product_bounds(t, turn, of(0));
    bounds::lemma_unit();
    assert(u * v >= 0 * w);
    exact::lemma_product_close(t, turn);
    // The angle times a unit, and the phase times the turn.
    exact::lemma_close_times(angle.units() * w, u * v, 2, 113);
    assert(w * 710 == exact::whole(710));
    exact::lemma_close_times(v * 113, w * 710, 2, u);
    assert((u * v) * 113 == (v * 113) * u && (w * 710) * u == (u * 710) * w) by (nonlinear_arith);
    assert(0 <= (u * 710) * w) by (nonlinear_arith)
        requires
            0 <= u,
            0 <= w,
    ;
    exact::lemma_close_chain((angle.units() * w) * 113, (u * v) * 113, 2, (u * 710) * w, 2);
    assert((angle.units() * w) * 113 == (angle.units() * 113) * w) by (nonlinear_arith);
    exact::lemma_close_over(angle.units() * 113, u * 710, 5, w);
    let c = u * 710;
    assert(tone::sine_for(f, o, Waveform::Sine) == curve::at(f, Curve::Sine, angle));
}

/// The bass plays the wave it is set to: what it hands its filter is a sample of that wave
/// at its oscillator's phase, and that is what it hears the next sample from.
pub proof fn law_the_bass_plays_its_wave<F: Fn(Curve, Single) -> Single>(
    f: F,
    v: BassVoice,
    p: BassParams,
)
    ensures
        ({
            let o = v.opened(f, p);
            let sine = tone::sine_for(f, o.osc, p.wave);
            exists|x: Single|
                {
                    &&& #[trigger] osc::traces(o.osc, p.wave, sine, x)
                    &&& v.heard(f, p) == output::guarded(
                        o.filter.passed(x).product(o.amp_env.level),
                    )
                    &&& v.moved(f, p).filter == o.filter.after(x)
                    &&& v.moved(f, p).osc == o.osc.after(p.wave)
                }
        }),
{
    let o = v.opened(f, p);
    let sine = tone::sine_for(f, o.osc, p.wave);
    osc::law_every_wave_is_what_it_is_called(o.osc, p.wave, sine);
    assert(osc::traces(o.osc, p.wave, sine, o.osc.sample(p.wave, sine)));
}

/// No two of the waves that have a shape are the same: wherever a pulse is away from its
/// edges it is at one end or the other, and a saw is at neither.
pub proof fn law_a_pulse_is_no_saw<F: Fn(Curve, Single) -> Single>(f: F, v: BassVoice)
    requires
        osc::clear_of_the_edge(v.osc),
        pow2(130) <= v.osc.phase.units() <= pow2(149) - pow2(130),
        v.osc.phase.units() != v.osc.pulse_width.units(),
    ensures
        v.raw(f, Waveform::Pulse) != v.raw(f, Waveform::Saw),
{
    osc::law_every_wave_is_what_it_is_called(v.osc, Waveform::Pulse, of(0));
    osc::law_every_wave_is_what_it_is_called(v.osc, Waveform::Saw, of(0));
    lemma2_to64();
    lemma_pow2_pos(125);
    lemma_pow2_adds(5, 125);
    lemma_pow2_adds(24, 125);
}

/// A bass note sounds at its own pitch and the tuning of the panel together, in semitones,
/// unless it slides.
pub proof fn law_the_bass_sounds_its_note<F: Fn(Curve, Single) -> Single>(
    f: F,
    v: BassVoice,
    p: BassParams,
    note: u8,
    accent: bool,
    tune: int,
)
    requires
        note <= 127,
        -12 <= tune <= 12,
        shift(p.tune, tune),
        0 <= note + tune,
        !of(0).below(v.glide_coef),
    ensures
        ({
            let hz = note::frequency(f, Single::nearest_to(note + tune));
            let o = v.started(note, accent).opened(f, p);
            &&& o.current_hz == hz
            &&& o.osc == v.osc.tuned(hz)
            &&& o.pitch.units() == exact::whole(note as int)
        }),
{
    let s = v.started(note, accent);
    exact::lemma_whole(note as int);
    exact::lemma_whole(note + tune);
    lemma_twelve(p.tune, tune);
    lemma_whole_sum(s.slid(), note as int, p.tune, tune);
    lemma_frequency_by_value(f, s.slid().sum(p.tune), Single::nearest_to(note + tune));
}

/// A tuning of no more than an octave is taken as it is.
proof fn lemma_twelve(x: Single, k: int)
    requires
        shift(x, k),
        -12 <= k <= 12,
    ensures
        x.clamped(of(0xC140_0000), of(0x4140_0000)) == x,
{
    note::lemma_steps();
    let twelve = of(0x4140_0000);
    bounds::lemma_opposite(twelve);
    assert(twelve.opposite() == of(0xC140_0000));
    let w = pow2(149) as int;
    lemma_pow2_pos(149);
    assert(k * w <= 12 * w && -(12 * w) <= k * w) by (nonlinear_arith)
        requires
            -12 <= k <= 12,
            w > 0,
    ;
    single::law_order_is_numeric(x, twelve.opposite());
    single::law_order_is_numeric(twelve, x);
}

/// A patch with every source closed.
pub open spec fn shut(p: Params) -> Params {
    Params {
        osc1_level: of(0),
        osc2_level: of(0),
        sub_level: of(0),
        noise_level: of(0),
        ..p
    }
}

/// Whether a mix is one wave of one oscillator at a level.
pub open spec fn alone(x: Single, o: Oscillator, wave: Waveform, sine: Single, level: Single) -> bool {
    exists|y: Single|
        #[trigger] osc::traces(o, wave, sine, y) && x == of(0).sum(y.product(level))
}

proof fn lemma_alone(o: Oscillator, wave: Waveform, sine: Single, level: Single)
    requires
        of(0).below(level),
    ensures
        alone(tone::mixed(of(0), o, wave, sine, level), o, wave, sine, level),
{
    osc::law_every_wave_is_what_it_is_called(o, wave, sine);
    let y = o.sample(wave, sine);
    assert(osc::traces(o, wave, sine, y));
}

/// A voice mixes its four sources, each at its own level: with all but one of them closed
/// it hears that one alone, at that level, and with all of them closed nothing.
pub proof fn law_a_voice_hears_each_source_at_its_level(
    t: Tone,
    p: Params,
    sines: Sines,
    level: Single,
)
    requires
        of(0).below(level),
    ensures
        t.mix(shut(p), sines) == of(0),
        alone(
            t.mix(Params { osc1_level: level, ..shut(p) }, sines),
            t.osc1,
            p.osc1_wave,
            sines.osc1,
            level,
        ),
        alone(
            t.mix(Params { osc2_level: level, ..shut(p) }, sines),
            t.osc2,
            p.osc2_wave,
            sines.osc2,
            level,
        ),
        alone(
            t.mix(Params { sub_level: level, ..shut(p) }, sines),
            t.sub,
            Waveform::Pulse,
            sines.sub,
            level,
        ),
        alone(
            t.mix(Params { noise_level: level, ..shut(p) }, sines),
            t.noise,
            Waveform::Noise,
            of(0),
            level,
        ),
{
    lemma_alone(t.osc1, p.osc1_wave, sines.osc1, level);
    lemma_alone(t.osc2, p.osc2_wave, sines.osc2, level);
    lemma_alone(t.sub, Waveform::Pulse, sines.sub, level);
    lemma_alone(t.noise, Waveform::Noise, of(0), level);
}

// --- Shaping ---

/// A voice is as loud as its envelope, its velocity and the tremolo make it together, to
/// within a rounding or two; at full velocity and without tremolo, exactly as its envelope.
pub proof fn law_a_voice_is_as_loud_as_asked(t: Tone, p: Params, sines: Sines, amp: Single)
    requires
        t.fade is None,
        bounds::in_unit(t.amp_env.advanced().level),
        bounds::in_unit(t.velocity),
        bounds::in_unit(amp),
    ensures
        ({
            let heard = t.filter.passed(t.mix(p, sines));
            let (level, touch) = (t.amp_env.advanced().level, t.velocity);
            let one = of(0x3F80_0000);
            &&& exists|gain: Single|
                {
                    &&& t.sample(p, sines, amp) == #[trigger] heard.product(gain)
                    &&& bounds::in_unit(gain)
                    &&& pow2(140) <= level.units() && pow2(140) <= touch.units() && pow2(140)
                        <= amp.units() ==> exact::close(
                        exact::whole(exact::whole(gain.units())),
                        level.units() * touch.units() * amp.units(),
                        5,
                    )
                    &&& touch.units() == 0 || amp.units() == 0 ==> gain.units() == 0
                }
            &&& touch == one && amp == one ==> t.sample(p, sines, amp) == heard.product(level)
        }),
{
    let (level, touch) = (t.amp_env.advanced().level, t.velocity);
    bounds::lemma_unit();
    bounds::lemma_in_unit(level);
    bounds::lemma_in_unit(touch);
    bounds::lemma_in_unit(amp);
    let part = level.product(touch);
    bounds::lemma_unit_product(level, touch);
    bounds::lemma_in_unit(part);
    bounds::lemma_unit_product(part, amp);
    let gain = part.product(amp);
    bounds::lemma_in_unit(gain);
    let heard = t.filter.passed(t.mix(p, sines));
    assert(t.sample(p, sines, amp) == heard.product(gain));
    let w = pow2(149) as int;
    if pow2(140) <= level.units() && pow2(140) <= touch.units() && pow2(140) <= amp.units() {
        lemma2_to64();
        lemma_pow2_adds(9, 140);
        lemma_pow2_pos(140);
        lemma_pow2_pos(108);
        lemma_pow2_adds(32, 108);
        lemma_pow2_pos(99);
        lemma_pow2_adds(32, 99);
        let g = pow2(140) as int;
        let (a, b, c) = (level.units(), touch.units(), amp.units());
        assert(a * b >= HIDDEN * w && 512 * (a * b) >= g * w) by (nonlinear_arith)
            requires
                a >= g,
                b >= g,
                w == 512 * g,
                g >= 512 * HIDDEN,
                HIDDEN == 0x0080_0000,
        ;
        let small = exact::lemma_scaled_whole(1, -18);
        assert(bounds::over(-18, -149) == pow2(131));
        lemma_pow2_adds(9, 131);
        assert(1 * bounds::over(-18, -149) == pow2(131));
        assert(a * b >= pow2(131) * w) by (nonlinear_arith)
            requires
                512 * (a * b) >= g * w,
                g == 512 * pow2(131),
                w > 0,
        ;
        bounds::lemma_product_bounds(level, touch, small);
        single::law_order_is_numeric(small, part);
        let d = part.units();
        assert(d * c >= HIDDEN * w) by (nonlinear_arith)
            requires
                d >= pow2(131),
                c >= g,
                pow2(131) >= 512 * HIDDEN,
                w == 512 * g,
                g > 0,
                HIDDEN == 0x0080_0000,
        ;
        exact::lemma_triple_close(level, touch, amp);
    }
    if touch.units() == 0 {
        assert(level.units() * 0 == 0 * w);
        exact::lemma_exact_product(level, touch, of(0));
        assert(0 * amp.units() == 0 * w);
        exact::lemma_exact_product(part, amp, of(0));
    }
    if amp.units() == 0 {
        assert(part.units() * 0 == 0 * w);
        exact::lemma_exact_product(part, amp, of(0));
    }
    if touch == of(0x3F80_0000) && amp == of(0x3F80_0000) {
        exact::lemma_times_one(level);
    }
}

/// A voice that is fading out is turned down by what is left of the fade, which shrinks by
/// one step with every sample; when nothing is left it is silent.
pub proof fn law_a_fading_voice_is_turned_down(t: Tone, p: Params, sines: Sines, amp: Single, fade: tone::Fade)
    requires
        t.fade == Some(fade),
        bounds::in_unit(fade.gain),
        bounds::in_unit(fade.step),
    ensures
        ({
            let still = Tone { fade: None, ..t };
            let left = fade.gain.units() - fade.step.units();
            &&& left <= 0 ==> t.sample(p, sines, amp) == of(0) && t.fade_ends()
            &&& left > 0 ==> !t.fade_ends() && (t.after(p, sines).fade matches Some(g) && {
                &&& bounds::rounded(g.gain, left)
                &&& g.step == fade.step
                &&& t.sample(p, sines, amp) == still.sample(p, sines, amp).product(g.gain)
            })
        }),
{
    let (zero, one) = (of(0), of(0x3F80_0000));
    bounds::lemma_unit();
    bounds::lemma_in_unit(fade.gain);
    bounds::lemma_in_unit(fade.step);
    bounds::lemma_opposite(fade.step);
    bounds::lemma_opposite(one);
    let g = fade.gain.difference(fade.step);
    bounds::lemma_sum_bounds(fade.gain, fade.step.opposite(), zero);
    bounds::lemma_sum_bounds(fade.gain, fade.step.opposite(), one);
    bounds::lemma_sum_bounds(fade.gain, fade.step.opposite(), one.opposite());
    bounds::lemma_in_bipolar(g);
    bounds::lemma_sum_error(fade.gain, fade.step.opposite());
    single::law_order_is_numeric(g, zero);
    if fade.gain.units() - fade.step.units() > 0 && g.at_most(zero) {
        bounds::lemma_sum_error_of_nothing(fade.gain, fade.step.opposite());
    }
}

/// A stolen voice fades over two milliseconds: a step of the fade, times the samples in
/// them, is one.
pub proof fn law_a_stolen_voice_fades_in_two_milliseconds(t: Tone)
    requires
        audible_rate(t.sample_rate),
    ensures
        t.fading().fade matches Some(fade) && {
            &&& fade.gain == of(0x3F80_0000)
            &&& bounds::in_unit(fade.step)
            &&& exact::close(
                fade.step.units() * t.sample_rate.units() * 2,
                1000 * (pow2(149) * pow2(149)) as int,
                10,
            )
        },
{
    let (zero, one, time, sr) = (of(0), of(0x3F80_0000), of(0x3B03_126F), t.sample_rate);
    let w = pow2(149) as int;
    bounds::lemma_unit();
    lemma2_to64();
    lemma2_to64_rest();
    lemma_pow2_pos(117);
    lemma_pow2_adds(32, 117);
    lemma_pow2_pos(105);
    lemma_pow2_adds(44, 105);
    assert(0x3B03_126Fint / 0x0080_0000int == 118 && 0x3B03_126Fint % 0x0080_0000int == 0x0003_126F);
    assert(single::magnitude_units(0x3B03_126F) == 0x0083_126F * pow2(117));
    let (s, r) = (time.units(), sr.units());
    assert(500 * s >= w && s <= w && exact::close(s * 1000, 2 * w, 2));
    let big = Single::nearest_to(0x0020_0000);
    exact::lemma_whole(0x0020_0000);
    assert(s * r >= w * w && s * r >= HIDDEN * w && s * r <= (0x0020_0000 * w) * w)
        by (nonlinear_arith)
        requires
            500 * s >= w,
            0 <= s <= w,
            1000 * w <= r <= 0x0010_0000 * w,
            w >= HIDDEN,
            HIDDEN == 0x0080_0000,
    ;
    let n = time.product(sr);
    bounds::lemma_product_bounds(time, sr, one);
    bounds::lemma_product_bounds(time, sr, big);
    single::law_order_is_numeric(one, n);
    single::law_order_is_numeric(n, one);
    single::law_order_is_numeric(n, big);
    exact::lemma_product_close(time, sr);
    let u = n.units();
    assert(w * w <= w * u && w * w >= HIDDEN * u && w * w >= 0 * u) by (nonlinear_arith)
        requires
            w <= u <= 0x0020_0000 * w,
            w >= HIDDEN * 0x0020_0000,
            HIDDEN == 0x0080_0000,
            w > 0,
    ;
    bounds::lemma_quotient_bounds(one, n, one);
    bounds::lemma_quotient_bounds(one, n, zero);
    exact::lemma_quotient_close(one, n);
    let q = one.quotient(n).units();
    bounds::lemma_in_unit(one.quotient(n));
    // q * u is w * w; u * w is s * r; s * 1000 is 2 * w.
    exact::lemma_close_times(q * u, w * w, 2, 1000 * w);
    assert(0 <= q * 1000 && 0 <= q * r) by (nonlinear_arith)
        requires
            0 <= q,
            0 <= r,
    ;
    exact::lemma_close_times(u * w, s * r, 2, q * 1000);
    exact::lemma_close_times(s * 1000, 2 * w, 2, q * r);
    let (top, mid, low, end) = (
        (q * u) * (1000 * w),
        (s * r) * (q * 1000),
        (2 * w) * (q * r),
        (w * w) * (1000 * w),
    );
    assert((u * w) * (q * 1000) == top && (s * 1000) * (q * r) == mid) by (nonlinear_arith)
        requires
            top == (q * u) * (1000 * w),
            mid == (s * r) * (q * 1000),
    ;
    assert(0 <= low && 0 <= end) by (nonlinear_arith)
        requires
            low == (2 * w) * (q * r),
            end == (w * w) * (1000 * w),
            0 <= q * r,
            0 < w,
    ;
    exact::lemma_close_chain(top, mid, 2, low, 2);
    exact::lemma_close_back(top, low, 5);
    exact::lemma_close_chain(low, top, 6, end, 2);
    assert(low == (q * r * 2) * w && end == (1000 * (w * w)) * w) by (nonlinear_arith)
        requires
            low == (2 * w) * (q * r),
            end == (w * w) * (1000 * w),
    ;
    exact::lemma_close_over(q * r * 2, 1000 * (w * w), 9, w);
    let c = 1000 * (w * w);
    assert(c >= 0) by (nonlinear_arith)
        requires
            c == 1000 * (w * w),
    ;
}

/// Whether a coefficient is that of a one-pole that covers all but one e-th of its way in
/// a time, given as the seconds times the sample rate: the exponential of a number which,
/// times the samples in that time, is minus one, to within a millionth.
pub open spec fn glides_in<F: Fn(Curve, Single) -> Single>(f: F, coef: Single, time: int) -> bool {
    exists|x: Single|
        {
            &&& coef == #[trigger] curve::at(f, Curve::Exponential, x)
            &&& x.finite()
            &&& exact::close(-x.units() * time, pow2(149) * pow2(149) * pow2(149) as int, 8)
        }
}

/// A one-pole takes the time it is given.
proof fn lemma_a_glide_takes_its_time<F: Fn(Curve, Single) -> Single>(
    f: F,
    seconds: Single,
    sample_rate: Single,
)
    requires
        audible_rate(sample_rate),
        seconds.finite(),
        pow2(120) <= seconds.units() <= exact::whole(16),
    ensures
        glides_in(
            f,
            curve::smoothing(f, seconds.product(sample_rate)),
            seconds.units() * sample_rate.units(),
        ),
{
    let (zero, one) = (of(0), of(0x3F80_0000));
    let (s, r, w) = (seconds.units(), sample_rate.units(), pow2(149) as int);
    bounds::lemma_unit();
    lemma2_to64();
    lemma2_to64_rest();
    lemma_pow2_pos(120);
    lemma_pow2_adds(29, 120);
    lemma_pow2_pos(97);
    lemma_pow2_adds(23, 97);
    lemma_pow2_pos(101);
    lemma_pow2_adds(48, 101);
    let big = exact::lemma_scaled_whole(1, 24);
    assert(bounds::over(24, -149) == pow2(173));
    lemma_pow2_adds(24, 149);
    let small = exact::lemma_scaled_whole(1, -20);
    assert(bounds::over(-20, -149) == pow2(129));
    lemma_pow2_adds(9, 120);
    lemma_pow2_adds(20, 129);
    assert(big.units() == 0x0100_0000 * w && small.units() == 512 * pow2(120)
        && w == 0x0010_0000 * small.units());
    let g = small.units();
    assert(s * r >= HIDDEN * w && s * r >= g * w && s * r <= (0x0100_0000 * w) * w)
        by (nonlinear_arith)
        requires
            pow2(120) <= s <= 16 * w,
            1000 * w <= r <= 0x0010_0000 * w,
            g == 512 * pow2(120),
            pow2(120) >= HIDDEN,
            HIDDEN == 0x0080_0000,
            w > 0,
    ;
    let n = seconds.product(sample_rate);
    bounds::lemma_product_bounds(seconds, sample_rate, big);
    bounds::lemma_product_bounds(seconds, sample_rate, small);
    single::law_order_is_numeric(n, big);
    single::law_order_is_numeric(small, n);
    exact::lemma_product_close(seconds, sample_rate);
    let u = n.units();
    let most = exact::lemma_scaled_whole(1, 20);
    assert(bounds::over(20, -149) == pow2(169));
    lemma_pow2_adds(20, 149);
    assert(w * w <= (0x0010_0000 * w) * u && w * w >= HIDDEN * u && w * w >= 0 * u)
        by (nonlinear_arith)
        requires
            g <= u <= 0x0100_0000 * w,
            w == 0x0010_0000 * g,
            w >= HIDDEN * 0x0100_0000,
            HIDDEN == 0x0080_0000,
            g > 0,
    ;
    bounds::lemma_quotient_bounds(one, n, most);
    bounds::lemma_quotient_bounds(one, n, zero);
    exact::lemma_quotient_close(one, n);
    let x = one.quotient(n);
    let q = x.units();
    // q * u is w * w, and u * w is s * r.
    exact::lemma_close_times(q * u, w * w, 2, w);
    exact::lemma_close_times(u * w, s * r, 2, q);
    let (top, low, end) = ((q * u) * w, (s * r) * q, (w * w) * w);
    assert((u * w) * q == top) by (nonlinear_arith)
        requires
            top == (q * u) * w,
    ;
    assert(0 <= low && 0 <= end) by (nonlinear_arith)
        requires
            low == (s * r) * q,
            end == (w * w) * w,
            0 <= s * r,
            0 <= q,
            0 < w,
    ;
    exact::lemma_close_back(top, low, 2);
    exact::lemma_close_chain(low, top, 3, end, 2);
    assert(n.magnitude() != 0);
    bounds::lemma_quotient_opposite(one, n);
    bounds::lemma_opposite(x);
    assert(one.opposite() == of(0xBF80_0000));
    let y = of(0xBF80_0000).quotient(n);
    assert(y == x.opposite());
    assert(-y.units() * (s * r) == low) by (nonlinear_arith)
        requires
            low == (s * r) * q,
            -y.units() == q,
    ;
    assert(6 * end <= 8 * end);
    assert(curve::smoothing(f, n) == curve::at(f, Curve::Exponential, y));
}

/// A glide takes the time on the panel, and none next to nothing.
pub proof fn law_a_glide_takes_its_time<F: Fn(Curve, Single) -> Single>(
    f: F,
    t: Tone,
    p: Params,
    m: Modulation,
)
    requires
        audible_rate(t.sample_rate),
        p.glide.finite(),
        p.glide.units() <= exact::whole(16),
    ensures
        p.glide.at_most(of(0x38D1_B717)) ==> t.readied(f, p, m).slid() == t.target_pitch,
        of(0x38D1_B717).below(p.glide) ==> glides_in(
            f,
            t.readied(f, p, m).glide_coef,
            p.glide.units() * t.sample_rate.units(),
        ),
{
    bounds::lemma_unit();
    if of(0x38D1_B717).below(p.glide) {
        lemma_next_to_nothing();
        single::law_order_is_numeric(of(0x38D1_B717), p.glide);
        lemma_a_glide_takes_its_time(f, p.glide, t.sample_rate);
    }
}

proof fn lemma_next_to_nothing()
    ensures
        of(0x38D1_B717).finite(),
        of(0x38D1_B717).units() >= pow2(120),
{
    lemma2_to64();
    lemma_pow2_pos(112);
    lemma_pow2_adds(8, 112);
    assert(0x38D1_B717int / 0x0080_0000int == 113 && 0x38D1_B717int % 0x0080_0000int == 0x0051_B717);
    assert(single::magnitude_units(0x38D1_B717) == 0x00D1_B717 * pow2(112));
}

/// A slide of the bass takes the time on the panel, and none next to nothing.
pub proof fn law_a_slide_takes_its_time<F: Fn(Curve, Single) -> Single>(
    f: F,
    v: BassVoice,
    p: BassParams,
)
    requires
        audible_rate(v.sample_rate),
        p.slide_time.finite(),
        p.slide_time.units() <= exact::whole(16),
    ensures
        p.slide_time.at_most(of(0x38D1_B717)) ==> v.readied(f, p).slid() == v.target_pitch,
        of(0x38D1_B717).below(p.slide_time) ==> glides_in(
            f,
            v.readied(f, p).glide_coef,
            p.slide_time.units() * v.sample_rate.units(),
        ),
{
    bounds::lemma_unit();
    if of(0x38D1_B717).below(p.slide_time) {
        lemma_next_to_nothing();
        single::law_order_is_numeric(of(0x38D1_B717), p.slide_time);
        lemma_a_glide_takes_its_time(f, p.slide_time, v.sample_rate);
    }
}

/// A glide goes towards its target and never past it, and at the next sample it has what
/// the coefficient leaves of the way to go, to within a rounding.
pub proof fn law_a_glide_never_overshoots(t: Tone)
    requires
        t.pitch.finite(),
        t.target_pitch.finite(),
        bounds::in_unit(t.glide_coef),
        t.pitch.difference(t.target_pitch).finite(),
    ensures
        t.pitch.at_most(t.target_pitch) ==> t.slid().at_most(t.target_pitch),
        t.target_pitch.at_most(t.pitch) ==> t.target_pitch.at_most(t.slid()),
{
    let (a, b, c, zero) = (t.pitch, t.target_pitch, t.glide_coef, of(0));
    bounds::lemma_unit();
    bounds::lemma_in_unit(c);
    bounds::lemma_opposite(b);
    let d = a.difference(b);
    single::law_order_is_numeric(a, b);
    single::law_order_is_numeric(b, a);
    bounds::lemma_sum_bounds(a, b.opposite(), zero);
    single::law_order_is_numeric(d, zero);
    single::law_order_is_numeric(zero, d);
    let (u, v, w) = (d.units(), c.units(), pow2(149) as int);
    assert((u >= 0 ==> 0 <= u * v <= u * w) && (u <= 0 ==> u * w <= u * v <= 0) && 0 * w == 0)
        by (nonlinear_arith)
        requires
            0 <= v <= w,
    ;
    let p = d.product(c);
    bounds::lemma_product_bounds(d, c, zero);
    bounds::lemma_product_bounds(d, c, d);
    single::law_order_is_numeric(d, p);
    single::law_order_is_numeric(p, d);
    single::law_order_is_numeric(p, zero);
    single::law_order_is_numeric(zero, p);
    bounds::lemma_sum_bounds(b, p, b);
}

/// Between two whole notes a glide that leaves half of the way goes to the middle, and one
/// that leaves all of it stays.
pub proof fn law_a_glide_leaves_its_share_of_the_way(t: Tone, j: int, k: int)
    requires
        shift(t.pitch, j),
        shift(t.target_pitch, k),
    ensures
        t.glide_coef == of(0x3F00_0000) ==> 2 * t.slid().units() == exact::whole(j + k),
        t.glide_coef == of(0x3F80_0000) ==> t.slid().units() == exact::whole(j),
{
    let (a, b, c, zero) = (t.pitch, t.target_pitch, t.glide_coef, of(0));
    let (half, w) = (of(0x3F00_0000), pow2(149) as int);
    bounds::lemma_unit();
    bounds::lemma_small_wholes();
    lemma_pow2_pos(149);
    bounds::lemma_opposite(b);
    assert(-(k * w) == (-k) * w && j * w + k * w == (j + k) * w) by (nonlinear_arith);
    lemma_whole_sum(a, j, b.opposite(), -k);
    let d = a.difference(b);
    if c == of(0x3F80_0000) {
        assert(zero.below(c));
        assert(((j - k) * w) * w == ((j - k) * w) * w);
        exact::lemma_exact_product(d, c, d);
        lemma_whole_sum(b, k, d.product(c), j - k);
    }
    if c == half {
        assert(zero.below(c));
        // Half of the difference, and from there to the middle.
        let x = lemma_half(j - k);
        let h = half.units();
        assert(x.units() * w == ((j - k) * w) * h) by (nonlinear_arith)
            requires
                2 * x.units() == (j - k) * w,
                2 * h == w,
        ;
        exact::lemma_exact_product(d, c, x);
        let y = lemma_half(j + k);
        assert(2 * (k * w) + (j - k) * w == (j + k) * w) by (nonlinear_arith);
        exact::lemma_exact_sum(b, d.product(c), y);
    }
}

/// Half a whole number is a number.
pub proof fn lemma_half(k: int) -> (x: Single)
    requires
        -0x1000 < k < 0x1000,
    ensures
        x.finite(),
        2 * x.units() == exact::whole(k),
{
    let w = pow2(149) as int;
    lemma_pow2_unfold(149);
    if k == 0 {
        bounds::lemma_unit();
        assert(0 * w == 0);
        of(0)
    } else {
        let n = if k < 0 {
            -k
        } else {
            k
        };
        let y = exact::lemma_scaled_whole(n, -1);
        let h = pow2(148) as int;
        assert(bounds::over(-1, -149) == pow2(148));
        bounds::lemma_opposite(y);
        assert(2 * (n * h) == n * w && -(n * w) == (-n) * w) by (nonlinear_arith)
            requires
                w == 2 * h,
        ;
        if k < 0 {
            y.opposite()
        } else {
            y
        }
    }
}

// --- Drums ---

/// Whether a coefficient is that of a fall by sixty decibels, to a thousandth, in so many
/// seconds: the exponential of a number which, times the samples in those seconds, is the
/// logarithm of a thousandth, to within a millionth of it.
pub open spec fn falls_in<F: Fn(Curve, Single) -> Single>(
    f: F,
    coef: Single,
    seconds: int,
    over: int,
    sample_rate: Single,
) -> bool {
    exists|x: Single|
        {
            &&& coef == #[trigger] curve::at(f, Curve::Exponential, x)
            &&& x.finite()
            &&& exact::close(
                -x.units() * sample_rate.units() * 1_000_000_000 * seconds,
                6_907_755_279 * pow2(149) * pow2(149) * over,
                15,
            )
        }
}

/// The steps of that, in whole numbers.
proof fn lemma_fall_adds_up(q: int, n: int, s: int, r: int, ku: int, tn: int, td: int, w: int, ks: int)
    requires
        0 <= q,
        0 <= n,
        0 <= s,
        0 <= r,
        0 < tn,
        0 < td,
        0 < w,
        0 <= ks <= 4,
        exact::close(q * n, ku * w, 2),
        exact::close(ku * 1_000_000_000, 6_907_755_279 * w, 2),
        exact::close(n * w, s * r, 2),
        exact::close(s * td, tn * w, ks),
    ensures
        exact::close(q * r * 1_000_000_000 * tn, 6_907_755_279 * w * w * td, ks + 10),
{
    let (b, l) = (1_000_000_000int, 6_907_755_279int);
    let c = w * td * b;
    assert(c >= 0 && w * w * td >= 0 && l * w * (w * w * td) >= 0) by (nonlinear_arith)
        requires
            0 < w,
            0 < td,
            b == 1_000_000_000,
            l == 6_907_755_279,
            c == w * td * b,
    ;
    // What was asked for, from above.
    exact::lemma_close_times(q * n, ku * w, 2, c);
    exact::lemma_close_times(ku * b, l * w, 2, w * w * td);
    let top = (q * n) * c;
    let mid = (ku * w) * c;
    let end = (l * w) * (w * w * td);
    assert(mid == (ku * b) * (w * w * td)) by (nonlinear_arith)
        requires
            mid == (ku * w) * c,
            c == w * td * b,
    ;
    exact::lemma_close_chain(top, mid, 2, end, 2);
    // And from below.
    let d = q * td * b;
    let g = q * r * b;
    assert(d >= 0 && g >= 0) by (nonlinear_arith)
        requires
            0 <= q,
            0 <= r,
            0 < td,
            b == 1_000_000_000,
            d == q * td * b,
            g == q * r * b,
    ;
    exact::lemma_close_times(n * w, s * r, 2, d);
    exact::lemma_close_times(s * td, tn * w, ks, g);
    assert((n * w) * d == top) by (nonlinear_arith)
        requires
            top == (q * n) * c,
            c == w * td * b,
            d == q * td * b,
    ;
    assert((s * r) * d == (s * td) * g) by (nonlinear_arith)
        requires
            d == q * td * b,
            g == q * r * b,
    ;
    let low = (tn * w) * g;
    assert(low >= 0) by (nonlinear_arith)
        requires
            low == (tn * w) * g,
            0 < tn,
            0 < w,
            0 <= g,
    ;
    exact::lemma_close_chain(top, (s * td) * g, 2, low, ks);
    exact::lemma_close_back(top, low, ks + 3);
    exact::lemma_close_chain(low, top, ks + 4, end, 5);
    assert(low == (q * r * b * tn) * w) by (nonlinear_arith)
        requires
            low == (tn * w) * g,
            g == q * r * b,
    ;
    assert(end == (l * w * w * td) * w) by (nonlinear_arith)
        requires
            end == (l * w) * (w * w * td),
    ;
    exact::lemma_close_over(q * r * b * tn, l * w * w * td, ks + 10, w);
}

/// The logarithm of a thousand, as a number.
proof fn lemma_log_of_a_thousand()
    ensures
        of(0x40DD_0C54).finite(),
        of(0x40DD_0C54).units() > 0,
        of(0x40DD_0C54).units() == 0x00DD_0C54 * pow2(128),
        of(0xC0DD_0C54) == of(0x40DD_0C54).opposite(),
        exact::close(of(0x40DD_0C54).units() * 1_000_000_000, exact::whole(6_907_755_279), 2),
{
    lemma2_to64();
    lemma_pow2_pos(128);
    lemma_pow2_adds(21, 128);
    assert(0x40DD_0C54int / 0x0080_0000int == 129 && 0x40DD_0C54int % 0x0080_0000int == 0x005D_0C54);
    assert(single::magnitude_units(0x40DD_0C54) == 0x00DD_0C54 * pow2(128));
}

/// A fall takes the time it is given, from a millisecond up.
proof fn lemma_a_fall_takes_its_time<F: Fn(Curve, Single) -> Single>(
    f: F,
    seconds: Single,
    sample_rate: Single,
    tn: int,
    td: int,
    ks: int,
)
    requires
        seconds.finite(),
        sample_rate.finite(),
        exact::whole(1000) <= sample_rate.units() <= exact::whole(0x0010_0000),
        of(0x3A83_126F).units() <= seconds.units() <= exact::whole(2),
        0 < tn,
        0 < td,
        0 <= ks <= 4,
        exact::close(seconds.units() * td, tn * pow2(149), ks),
    ensures
        falls_in(f, voice::fall_coef(f, seconds, sample_rate), tn, td, sample_rate),
{
    let (least, one, log) = (of(0x3A83_126F), of(0x3F80_0000), of(0x40DD_0C54));
    let w = pow2(149) as int;
    lemma2_to64();
    lemma2_to64_rest();
    lemma_pow2_pos(149);
    lemma_pow2_pos(116);
    lemma_pow2_adds(33, 116);
    lemma_pow2_pos(105);
    lemma_pow2_adds(44, 105);
    assert(0x3A83_126Fint / 0x0080_0000int == 117 && 0x3A83_126Fint % 0x0080_0000int == 0x0003_126F);
    assert(single::magnitude_units(0x3A83_126F) == 0x0083_126F * pow2(116));
    lemma_log_of_a_thousand();
    bounds::lemma_unit();
    single::law_order_is_numeric(seconds, least);
    let (s, r) = (seconds.units(), sample_rate.units());
    let big = Single::nearest_to(0x0020_0000);
    exact::lemma_whole(0x0020_0000);
    let n = seconds.product(sample_rate);
    // Between one and two million samples.
    assert(1000 * least.units() >= w);
    assert(s * r >= w * w && s * r >= HIDDEN * w && s * r <= (0x0020_0000 * w) * w)
        by (nonlinear_arith)
        requires
            1000 * s >= w,
            s <= 2 * w,
            1000 * w <= r <= 0x0010_0000 * w,
            w >= HIDDEN,
            HIDDEN == 0x0080_0000,
            s >= 0,
    ;
    bounds::lemma_product_bounds(seconds, sample_rate, one);
    bounds::lemma_product_bounds(seconds, sample_rate, big);
    single::law_order_is_numeric(one, n);
    single::law_order_is_numeric(n, big);
    single::law_order_is_numeric(n, one);
    assert(voice::fall_time(seconds, sample_rate) == n);
    exact::lemma_product_close(seconds, sample_rate);
    let (u, k) = (n.units(), log.units());
    let (zero, seven) = (of(0), Single::nearest_to(7));
    exact::lemma_whole(7);
    assert(k <= 7 * w) by {
        lemma_pow2_adds(21, 128);
    }
    assert(k * w <= (7 * w) * u && k * w >= HIDDEN * u) by (nonlinear_arith)
        requires
            0 <= k <= 7 * w,
            k >= w,
            w <= u <= 0x0020_0000 * w,
            w >= HIDDEN * 0x0020_0000,
            HIDDEN == 0x0080_0000,
    ;
    let x = log.quotient(n);
    bounds::lemma_quotient_bounds(log, n, seven);
    bounds::lemma_quotient_bounds(log, n, zero);
    assert(k * w >= 0 * u) by (nonlinear_arith)
        requires
            k >= 0,
            w >= 0,
    ;
    exact::lemma_quotient_close(log, n);
    lemma_fall_adds_up(x.units(), u, s, r, k, tn, td, w, ks);
    assert(n.magnitude() != 0);
    bounds::lemma_quotient_opposite(log, n);
    bounds::lemma_opposite(x);
    let y = of(0xC0DD_0C54).quotient(n);
    assert(y == x.opposite());
    let (q, c) = (x.units(), 6_907_755_279 * w * w * td);
    assert(c >= 0) by (nonlinear_arith)
        requires
            w > 0,
            td > 0,
            c == 6_907_755_279 * w * w * td,
    ;
    assert((ks + 10) * c <= 15 * c) by (nonlinear_arith)
        requires
            c >= 0,
            ks <= 4,
    ;
    assert(exact::close(-y.units() * r * 1_000_000_000 * tn, c, 15));
    assert(voice::fall_coef(f, seconds, sample_rate) == curve::at(f, Curve::Exponential, y));
}

/// Whether a sample rate is one that a device has.
pub open spec fn audible_rate(sample_rate: Single) -> bool {
    &&& sample_rate.finite()
    &&& exact::whole(1000) <= sample_rate.units() <= exact::whole(0x0010_0000)
}

/// The ends of what a pad's decay is held to, and of what pads ring without it.
proof fn lemma_rings(pad: Pad, scale: Single)
    requires
        of(0x3DCC_CCCD).at_most(scale),
        scale.at_most(of(0x4080_0000)),
    ensures
        pad.ring().finite(),
        scale.finite(),
        pad.ring().units() > 0,
        scale.units() > 0,
        pad.ring().product(scale).finite(),
        exact::close(
            exact::whole(pad.ring().product(scale).units()),
            pad.ring().units() * scale.units(),
            2,
        ),
        of(0x3A83_126F).units() <= pad.ring().product(scale).units() <= exact::whole(2),
{
    let (b, rim, half, tenth, four, least) = (
        pad.ring(),
        of(0x3CE5_6042),
        of(0x3F00_0000),
        of(0x3DCC_CCCD),
        of(0x4080_0000),
        of(0x3A83_126F),
    );
    let w = pow2(149) as int;
    bounds::lemma_unit();
    bounds::lemma_small_wholes();
    lemma2_to64();
    lemma2_to64_rest();
    lemma_pow2_pos(116);
    lemma_pow2_pos(149);
    lemma_pow2_adds(33, 116);
    lemma_pow2_adds(4, 116);
    lemma_pow2_adds(6, 116);
    assert(0x3A83_126Fint / 0x0080_0000int == 117 && 0x3A83_126Fint % 0x0080_0000int == 0x0003_126F);
    assert(0x3CE5_6042int / 0x0080_0000int == 121 && 0x3CE5_6042int % 0x0080_0000int == 0x0065_6042);
    assert(0x3DCC_CCCDint / 0x0080_0000int == 123 && 0x3DCC_CCCDint % 0x0080_0000int == 0x004C_CCCD);
    assert(single::magnitude_units(0x3A83_126F) == 0x0083_126F * pow2(116));
    assert(single::magnitude_units(0x3CE5_6042) == 0x00E5_6042 * pow2(120));
    assert(single::magnitude_units(0x3DCC_CCCD) == 0x00CC_CCCD * pow2(122));
    assert(rim.at_most(b) && b.at_most(half));
    single::law_order_is_numeric(rim, b);
    single::law_order_is_numeric(b, half);
    single::law_order_is_numeric(tenth, scale);
    single::law_order_is_numeric(scale, four);
    let (x, y, g) = (b.units(), scale.units(), pow2(116) as int);
    assert(w == 0x2_0000_0000 * g);
    assert(pow2(120) == 16 * g && pow2(122) == 64 * g);
    assert(rim.units() == 0x00E5_6042 * (16 * g));
    assert(tenth.units() == 0x00CC_CCCD * (64 * g));
    assert(x >= 0x00E5_6042 * (16 * g));
    assert(y >= 0x00CC_CCCD * (64 * g));
    assert(x * y >= (0x0083_126F * g) * w) by (nonlinear_arith)
        requires
            x >= 0x00E5_6042 * (16 * g),
            y >= 0x00CC_CCCD * (64 * g),
            w == 0x2_0000_0000 * g,
            g > 0,
    ;
    assert(x * y <= (2 * w) * w && x * y >= 0) by (nonlinear_arith)
        requires
            0 <= 2 * x <= w,
            0 <= y <= 4 * w,
    ;
    let two = of(0x4000_0000);
    bounds::lemma_product_bounds(b, scale, least);
    bounds::lemma_product_bounds(b, scale, two);
    single::law_order_is_numeric(least, b.product(scale));
    single::law_order_is_numeric(b.product(scale), two);
    assert((0x0083_126F * g) * w >= HIDDEN * w) by (nonlinear_arith)
        requires
            0x0083_126F * g >= HIDDEN,
            w >= 0,
    ;
    exact::lemma_product_close(b, scale);
}

/// A struck pad falls by sixty decibels in its own decay times the scale that it is struck
/// with, from a tenth of it to four times it. A smaller scale counts as a tenth, and a
/// larger as four.
pub proof fn law_a_pad_rings_as_long_as_asked<F: Fn(Curve, Single) -> Single>(
    f: F,
    v: DrumVoice,
    pad: Pad,
    gain: Single,
    tune: Single,
    scale: Single,
)
    requires
        audible_rate(v.sample_rate),
        scale.finite(),
    ensures
        ({
            let (tenth, four) = (of(0x3DCC_CCCD), of(0x4080_0000));
            let coef = v.struck(f, pad, gain, tune, scale).amp.coef;
            &&& tenth.at_most(scale) && scale.at_most(four) ==> falls_in(
                f,
                coef,
                pad.ring().units() * scale.units(),
                pow2(149) * pow2(149) as int,
                v.sample_rate,
            )
            &&& scale.below(tenth) ==> coef == v.struck(f, pad, gain, tune, tenth).amp.coef
            &&& four.below(scale) ==> coef == v.struck(f, pad, gain, tune, four).amp.coef
        }),
{
    let (tenth, four) = (of(0x3DCC_CCCD), of(0x4080_0000));
    if tenth.at_most(scale) && scale.at_most(four) {
        lemma_rings(pad, scale);
        let (b, y, w) = (pad.ring().units(), scale.units(), pow2(149) as int);
        let s = pad.ring().product(scale);
        lemma_pow2_pos(149);
        exact::lemma_close_times(s.units() * w, b * y, 2, w);
        assert(s.units() * (w * w) == (s.units() * w) * w) by (nonlinear_arith);
        assert(b * y > 0 && w * w > 0) by (nonlinear_arith)
            requires
                b > 0,
                y > 0,
                w > 0,
        ;
        lemma_a_fall_takes_its_time(f, s, v.sample_rate, b * y, w * w, 2);
    }
}

/// The pitch of a struck pad falls in fifty milliseconds, whatever the pad, and its click in
/// two.
pub proof fn law_a_thump_and_a_click_are_short<F: Fn(Curve, Single) -> Single>(
    f: F,
    v: DrumVoice,
    pad: Pad,
    gain: Single,
    tune: Single,
    scale: Single,
)
    requires
        audible_rate(v.sample_rate),
    ensures
        falls_in(f, v.struck(f, pad, gain, tune, scale).pitch.coef, 50, 1000, v.sample_rate),
        falls_in(f, v.struck(f, pad, gain, tune, scale).click.coef, 2, 1000, v.sample_rate),
{
    let (thump, click) = (of(0x3D4C_CCCD), of(0x3B03_126F));
    lemma2_to64();
    lemma2_to64_rest();
    lemma_pow2_pos(116);
    lemma_pow2_adds(33, 116);
    lemma_pow2_adds(5, 116);
    lemma_pow2_adds(1, 116);
    assert(0x3A83_126Fint / 0x0080_0000int == 117 && 0x3A83_126Fint % 0x0080_0000int == 0x0003_126F);
    assert(0x3B03_126Fint / 0x0080_0000int == 118 && 0x3B03_126Fint % 0x0080_0000int == 0x0003_126F);
    assert(0x3D4C_CCCDint / 0x0080_0000int == 122 && 0x3D4C_CCCDint % 0x0080_0000int == 0x004C_CCCD);
    assert(single::magnitude_units(0x3A83_126F) == 0x0083_126F * pow2(116));
    assert(single::magnitude_units(0x3B03_126F) == 0x0083_126F * pow2(117));
    assert(single::magnitude_units(0x3D4C_CCCD) == 0x00CC_CCCD * pow2(121));
    lemma_a_fall_takes_its_time(f, thump, v.sample_rate, 50, 1000, 2);
    lemma_a_fall_takes_its_time(f, click, v.sample_rate, 2, 1000, 2);
}

/// A pad is struck at the level it is given, with half of that for its click; its body
/// starts from the beginning.
pub proof fn law_a_pad_is_struck_at_its_level<F: Fn(Curve, Single) -> Single>(
    f: F,
    v: DrumVoice,
    pad: Pad,
    gain: Single,
    tune: Single,
    scale: Single,
    half: Single,
)
    requires
        gain.finite(),
        half.finite(),
        gain.units() == 2 * half.units(),
        half.units() > 0,
    ensures
        ({
            let s = v.struck(f, pad, gain, tune, scale);
            &&& s.amp.value == gain
            &&& s.click.value == half
            &&& s.phase.magnitude() == 0
            &&& s.pad == pad
            &&& s.active()
        }),
{
    bounds::lemma_unit();
    bounds::lemma_halved(half, gain);
    single::law_order_is_numeric(of(0), half);
    single::law_order_is_numeric(of(0), gain);
    exact::lemma_one_key(gain.product(of(0x3F00_0000)), half);
}

/// A pad is tuned in semitones: so many of them shift it by the interval that as many
/// shift concert A by.
pub proof fn law_a_pad_is_tuned_in_semitones<F: Fn(Curve, Single) -> Single>(
    f: F,
    v: DrumVoice,
    pad: Pad,
    gain: Single,
    scale: Single,
    k: int,
)
    requires
        k != 0,
        -60 <= k <= 60,
    ensures
        ({
            let hz = v.struck(f, pad, gain, note::semitones(k), scale).hz;
            exists|interval: Single|
                {
                    &&& hz == #[trigger] pad.centre().product(interval)
                    &&& note::frequency(f, Single::nearest_to(69 + k)) == of(
                        0x43DC_0000,
                    ).product(interval)
                }
        }),
{
    note::lemma_steps();
    note::lemma_semitones(k);
    note::lemma_semitones(100 * k);
    let w = pow2(149) as int;
    assert(((100 * k) * w) * w == (k * w) * (100 * w)) by (nonlinear_arith);
    exact::lemma_exact_product(
        note::semitones(k),
        of(0x42C8_0000),
        note::semitones(100 * k),
    );
    note::law_a_semitone_is_a_hundred_cents(f, k);
    let interval = note::ratio_of_cents(f, note::semitones(100 * k));
    assert(v.struck(f, pad, gain, note::semitones(k), scale).hz == pad.centre().product(interval));
}

/// The body of a pad starts four times as high as it ends: it turns so much faster while
/// its pitch has not begun to fall.
pub proof fn law_a_thump_starts_two_octaves_up(v: DrumVoice, w: DrumVoice, high: Single)
    requires
        v.pitch.value == of(0x3F80_0000),
        w == (DrumVoice { pitch: voice::Decay { value: of(0), ..v.pitch }, ..v }),
        v.hz.finite(),
        v.hz.units() > 0,
        high.finite(),
        high.units() == 4 * v.hz.units(),
    ensures
        v.step() == high.quotient(v.sample_rate).clamped(of(0), of(0x3EFA_E148)),
        w.step() == v.hz.quotient(v.sample_rate).clamped(of(0), of(0x3EFA_E148)),
{
    let (zero, one, three, four) = (of(0), of(0x3F80_0000), of(0x4040_0000), of(0x4080_0000));
    bounds::lemma_unit();
    bounds::lemma_small_wholes();
    let g = pow2(149) as int;
    lemma_pow2_pos(149);
    exact::lemma_times_one(three);
    assert((3 * g) * g == g * (3 * g)) by (nonlinear_arith);
    exact::lemma_exact_product(one, three, three);
    exact::lemma_exact_sum(one, three, four);
    let h = v.hz.units();
    assert((4 * h) * g == h * (4 * g)) by (nonlinear_arith);
    exact::lemma_exact_product(v.hz, four, high);
    bounds::lemma_product_with_zero(three, zero);
    bounds::lemma_zero_product(three);
    exact::lemma_exact_sum(one, zero.product(three), one);
    exact::lemma_times_one(v.hz);
}

} // verus!
