//! Notes as the control side sees them.

use crate::bounds;
use crate::curve;
use crate::curve::{read, Curve};
use crate::exact;
use crate::params::of;
use crate::single;
use crate::single::{Single, HIDDEN};
use vstd::arithmetic::power2::*;
use vstd::prelude::*;

verus! {

/// The twelve note names, from C up.
pub const NOTE_NAMES: [&'static str; 12] = [
    "C",
    "C#",
    "D",
    "D#",
    "E",
    "F",
    "F#",
    "G",
    "G#",
    "A",
    "A#",
    "B",
];

/// A note as the control side sees it.
#[derive(Debug, Clone, Copy, PartialEq, Eq, Structural)]
pub struct Note {
    /// MIDI note number, 0-127. 60 is middle C.
    pub pitch: u8,
    /// 0.0 to 1.0. Drives amplitude and, optionally, filter brightness.
    pub velocity: Single,
}

/// A number of 127ths.
pub open spec fn hundred_and_twenty_sevenths(n: u8) -> Single {
    Single::nearest_to(n as int).quotient(of(0x42FE_0000))
}

/// A data byte as a share of the largest one.
pub(crate) fn from_data_byte(n: u8) -> (x: Single)
    ensures
        x == hundred_and_twenty_sevenths(n),
{
    Single::from_whole(n as u64).over(of(0x42FE_0000))
}

impl Note {
    /// A note, its velocity held to the unit interval.
    pub fn new(pitch: u8, velocity: Single) -> (n: Note)
        ensures
            n.pitch == pitch,
            n.velocity == velocity.clamped(of(0), of(0x3F80_0000)),
    {
        Note { pitch, velocity: velocity.clamp(of(0), of(0x3F80_0000)) }
    }

    /// Builds a note from raw MIDI bytes, mapping velocity 0-127 to 0.0-1.0.
    pub fn from_midi(pitch: u8, velocity: u8) -> (n: Note)
        ensures
            n.pitch == pitch,
            n.velocity == hundred_and_twenty_sevenths(velocity).clamped(of(0), of(0x3F80_0000)),
    {
        Note::new(pitch, from_data_byte(velocity))
    }

    /// The note's frequency in Hz.
    pub fn hz<F: Fn(Curve, Single) -> Single + Copy>(self, f: F) -> (hz: Single)
        requires
            curve::gives_curves(f),
        ensures
            hz == frequency(f, Single::nearest_to(self.pitch as int)),
    {
        midi_to_hz(Single::from_whole(self.pitch as u64), f)
    }

    /// Note name with octave, e.g. `("C", 4)` for middle C.
    pub fn name(self) -> (r: (&'static str, i32))
        ensures
            r.0@ == NOTE_NAMES[self.pitch as int % 12]@,
            r.1 == self.pitch as int / 12 - 1,
    {
        (NOTE_NAMES[(self.pitch % 12) as usize], (self.pitch / 12) as i32 - 1)
    }
}

/// How many octaves a pitch in semitones lies above concert A. Pitch bend, glide and
/// vibrato all land between notes, and add up in semitones.
pub fn octaves_from_a4(note: Single) -> (x: Single)
    ensures
        x == note.difference(Single { bits: 0x428A_0000 }).quotient(Single { bits: 0x4140_0000 }),
{
    note.minus(Single { bits: 0x428A_0000 }).over(Single { bits: 0x4140_0000 })
}

/// The frequency in Hz that is so many times concert A.
pub fn times_a4(ratio: Single) -> (hz: Single)
    ensures
        hz == (Single { bits: 0x43DC_0000 }).product(ratio),
{
    (Single { bits: 0x43DC_0000 }).times(ratio)
}

/// A detune in cents as octaves.
pub fn octaves_of_cents(cents: Single) -> (x: Single)
    ensures
        x == cents.quotient(Single { bits: 0x4496_0000 }),
{
    cents.over(Single { bits: 0x4496_0000 })
}

/// How many times concert A a frequency is; nothing for none.
pub fn over_a4(hz: Single) -> (ratio: Option<Single>)
    ensures
        ratio == (if hz.at_most(of(0)) {
            None
        } else {
            Some(hz.quotient(Single { bits: 0x43DC_0000 }))
        }),
{
    if hz.le(of(0)) {
        None
    } else {
        Some(hz.over(Single { bits: 0x43DC_0000 }))
    }
}

/// The pitch in semitones that lies so many octaves above concert A.
pub fn note_at(octaves: Single) -> (note: Single)
    ensures
        note == (Single { bits: 0x428A_0000 }).sum((Single { bits: 0x4140_0000 }).product(octaves)),
{
    (Single { bits: 0x428A_0000 }).plus((Single { bits: 0x4140_0000 }).times(octaves))
}

/// The frequency of a pitch in semitones.
pub open spec fn frequency<F: Fn(Curve, Single) -> Single>(f: F, note: Single) -> Single {
    of(0x43DC_0000).product(
        curve::at(f, Curve::TwoTo, note.difference(of(0x428A_0000)).quotient(of(0x4140_0000))),
    )
}

/// Frequency in Hz of a pitch in semitones, which may lie between notes. Concert A,
/// note 69, is 440 Hz.
pub fn midi_to_hz<F: Fn(Curve, Single) -> Single + Copy>(note: Single, f: F) -> (hz: Single)
    requires
        curve::gives_curves(f),
    ensures
        hz == frequency(f, note),
{
    times_a4(read(f, Curve::TwoTo, octaves_from_a4(note)))
}

/// The pitch in semitones of a frequency; note 0 for none.
pub fn hz_to_midi<F: Fn(Curve, Single) -> Single + Copy>(hz: Single, f: F) -> (note: Single)
    requires
        curve::gives_curves(f),
    ensures
        note == (if hz.at_most(of(0)) {
            of(0)
        } else {
            of(0x428A_0000).sum(
                of(0x4140_0000).product(
                    curve::at(f, Curve::BinaryLogarithm, hz.quotient(of(0x43DC_0000))),
                ),
            )
        }),
{
    match over_a4(hz) {
        Some(ratio) => note_at(read(f, Curve::BinaryLogarithm, ratio)),
        None => of(0),
    }
}

/// The ratio of frequencies of a detune in cents.
pub open spec fn ratio_of_cents<F: Fn(Curve, Single) -> Single>(f: F, cents: Single) -> Single {
    curve::at(f, Curve::TwoTo, cents.quotient(of(0x4496_0000)))
}

/// The ratio of frequencies of a detune in cents.
pub fn cents_to_ratio<F: Fn(Curve, Single) -> Single + Copy>(cents: Single, f: F) -> (ratio: Single)
    requires
        curve::gives_curves(f),
    ensures
        ratio == ratio_of_cents(f, cents),
{
    read(f, Curve::TwoTo, octaves_of_cents(cents))
}

/// The units of twelve, of sixty-nine, of a hundred and of twelve hundred.
pub proof fn lemma_steps()
    ensures
        of(0x4140_0000).finite() && of(0x4140_0000).units() == exact::whole(12),
        of(0x428A_0000).finite() && of(0x428A_0000).units() == exact::whole(69),
        of(0x42C8_0000).finite() && of(0x42C8_0000).units() == exact::whole(100),
        of(0x4496_0000).finite() && of(0x4496_0000).units() == exact::whole(1200),
        of(0x4140_0000) == Single::nearest_to(12),
        of(0x428A_0000) == Single::nearest_to(69),
{
    lemma2_to64();
    lemma_pow2_adds(20, 129);
    lemma_pow2_adds(17, 132);
    lemma_pow2_adds(13, 136);
    assert(0x4140_0000int / 0x0080_0000int == 130 && 0x4140_0000int % 0x0080_0000int == 0x0040_0000);
    assert(0x428A_0000int / 0x0080_0000int == 133 && 0x428A_0000int % 0x0080_0000int == 0x000A_0000);
    assert(0x42C8_0000int / 0x0080_0000int == 133 && 0x42C8_0000int % 0x0080_0000int == 0x0048_0000);
    assert(0x4496_0000int / 0x0080_0000int == 137 && 0x4496_0000int % 0x0080_0000int == 0x0016_0000);
    assert(single::magnitude_units(0x4140_0000) == 0x00C0_0000 * pow2(129));
    assert(single::magnitude_units(0x428A_0000) == 0x008A_0000 * pow2(132));
    assert(single::magnitude_units(0x42C8_0000) == 0x00C8_0000 * pow2(132));
    assert(single::magnitude_units(0x4496_0000) == 0x0096_0000 * pow2(136));
    exact::lemma_whole(12);
    exact::lemma_whole(69);
    lemma_pow2_pos(149);
    lemma_same_value(of(0x4140_0000), Single::nearest_to(12));
    lemma_same_value(of(0x428A_0000), Single::nearest_to(69));
}

/// Two finite numbers of one value, and not zero, are one number.
pub proof fn lemma_same_value(a: Single, b: Single)
    requires
        a.finite(),
        b.finite(),
        a.units() == b.units(),
        a.units() != 0,
    ensures
        a == b,
{
    bounds::lemma_unit();
    single::law_order_is_numeric(a, b);
    single::law_order_is_numeric(b, a);
    single::law_order_is_numeric(a, of(0));
    single::law_order_is_numeric(of(0), a);
    exact::lemma_one_key(a, b);
}

/// A whole number of semitones, up or down.
pub open spec fn semitones(k: int) -> Single {
    if k >= 0 {
        Single::nearest_to(k)
    } else {
        Single::nearest_to(-k).opposite()
    }
}

/// Whole semitones are whole.
pub proof fn lemma_semitones(k: int)
    requires
        -0x0100_0000 < k < 0x0100_0000,
    ensures
        semitones(k).finite(),
        semitones(k).units() == exact::whole(k),
        semitones(k).negative() == (k < 0),
        k != 0 ==> exact::whole(k) != 0,
{
    exact::lemma_whole(if k >= 0 {
        k
    } else {
        -k
    });
    let w = pow2(149) as int;
    lemma_pow2_pos(149);
    assert(-((-k) * w) == k * w && (k != 0 ==> k * w != 0)) by (nonlinear_arith)
        requires
            w > 0,
    ;
    if k < 0 {
        bounds::lemma_opposite(Single::nearest_to(-k));
    }
}

/// Whole semitones add up without rounding.
pub proof fn lemma_semitones_add(j: int, k: int)
    requires
        -0x0080_0000 < j < 0x0080_0000,
        -0x0080_0000 < k < 0x0080_0000,
        j + k != 0,
    ensures
        semitones(j).sum(semitones(k)) == semitones(j + k),
{
    lemma_semitones(j);
    lemma_semitones(k);
    lemma_semitones(j + k);
    let w = pow2(149) as int;
    assert(j * w + k * w == (j + k) * w) by (nonlinear_arith);
    exact::lemma_exact_sum(semitones(j), semitones(k), semitones(j + k));
}

/// The frequency of a note so many semitones from concert A is so many twelfths of an
/// octave from it.
proof fn lemma_from_concert_a<F: Fn(Curve, Single) -> Single>(f: F, k: int)
    requires
        k != 0,
        -69 <= k <= 0xFFFF,
    ensures
        frequency(f, Single::nearest_to(69 + k)) == of(0x43DC_0000).product(
            curve::at(f, Curve::TwoTo, semitones(k).quotient(of(0x4140_0000))),
        ),
{
    lemma_steps();
    lemma_semitones(k);
    exact::lemma_whole(69 + k);
    bounds::lemma_opposite(of(0x428A_0000));
    let w = pow2(149) as int;
    assert((69 + k) * w + -(69 * w) == k * w) by (nonlinear_arith);
    exact::lemma_exact_sum(
        Single::nearest_to(69 + k),
        of(0x428A_0000).opposite(),
        semitones(k),
    );
}

/// The octaves of concert A: 440 Hz times two to the power of so many octaves.
pub proof fn law_octaves_of_concert_a<F: Fn(Curve, Single) -> Single>(f: F, k: int)
    requires
        k != 0,
        -5 <= k <= 100,
    ensures
        frequency(f, Single::nearest_to(69 + 12 * k)) == Single::nearest_to(440).product(
            curve::at(f, Curve::TwoTo, semitones(k)),
        ),
{
    lemma_from_concert_a(f, 12 * k);
    lemma_steps();
    lemma_semitones(12 * k);
    lemma_semitones(k);
    exact::lemma_whole(440);
    lemma2_to64();
    lemma_pow2_adds(15, 134);
    assert(0x43DC_0000int / 0x0080_0000int == 135 && 0x43DC_0000int % 0x0080_0000int == 0x005C_0000);
    assert(single::magnitude_units(0x43DC_0000) == 0x00DC_0000 * pow2(134));
    lemma_pow2_pos(149);
    lemma_same_value(of(0x43DC_0000), Single::nearest_to(440));
    let w = pow2(149) as int;
    assert((k * w) * (12 * w) == ((12 * k) * w) * w) by (nonlinear_arith);
    exact::lemma_exact_quotient(semitones(12 * k), of(0x4140_0000), semitones(k));
}

/// A semitone is a hundred cents: a note so many semitones from concert A has the
/// frequency of concert A detuned by so many hundred cents.
pub proof fn law_a_semitone_is_a_hundred_cents<F: Fn(Curve, Single) -> Single>(f: F, k: int)
    requires
        k != 0,
        -69 <= k <= 0xFFF,
    ensures
        frequency(f, Single::nearest_to(69 + k)) == of(0x43DC_0000).product(
            ratio_of_cents(f, semitones(100 * k)),
        ),
{
    lemma_from_concert_a(f, k);
    lemma_steps();
    lemma_semitones(k);
    lemma_semitones(100 * k);
    lemma_same_twelfth(k);
}

/// So many semitones are the same part of an octave as a hundred times as many cents.
pub proof fn lemma_same_twelfth(k: int)
    requires
        k != 0,
        -0xFFF <= k <= 0xFFF,
    ensures
        semitones(k).quotient(of(0x4140_0000)) == semitones(100 * k).quotient(of(0x4496_0000)),
{
    lemma_steps();
    let (a, b, c, d) = (semitones(k), of(0x4140_0000), semitones(100 * k), of(0x4496_0000));
    lemma_semitones(k);
    lemma_semitones(100 * k);
    let w = pow2(149) as int;
    lemma_pow2_pos(149);
    let n = if k < 0 {
        -k
    } else {
        k
    };
    let (u, v) = (bounds::size_units(a) as int, bounds::size_units(c) as int);
    assert(u == n * w && v == (100 * n) * w) by (nonlinear_arith)
        requires
            u == (if k * w < 0 {
                -(k * w)
            } else {
                k * w
            }),
            v == (if (100 * k) * w < 0 {
                -((100 * k) * w)
            } else {
                (100 * k) * w
            }),
            n == (if k < 0 {
                -k
            } else {
                k
            }),
            w > 0,
    ;
    assert(u * (1200 * w) == v * (12 * w)) by (nonlinear_arith)
        requires
            u == n * w,
            v == (100 * n) * w,
    ;
    bounds::lemma_quotients_ordered(a, b, c, d);
    bounds::lemma_quotients_ordered(c, d, a, b);
    bounds::lemma_quotient_parts(a, b);
    bounds::lemma_quotient_parts(c, d);
    bounds::lemma_sign_and_size(a.quotient(b), c.quotient(d));
}

} // verus!
