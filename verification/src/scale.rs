//! Scales and pitch quantization.
//!
//! "Random notes" and "random notes that sound good" are different problems.
//! Constraining pitches to a scale solves most of the second: a scale is a
//! small table of semitone offsets, and a random *degree* mapped through that
//! table is always consonant with every other note in the key.

use crate::params::of;
use crate::single::Single;
use vstd::prelude::*;

verus! {

/// A scale, as a set of semitone offsets from the root.
#[derive(Debug, Clone, Copy, PartialEq, Eq, Structural)]
pub enum Scale {
    Major,
    NaturalMinor,
    HarmonicMinor,
    Dorian,
    Phrygian,
    Lydian,
    Mixolydian,
    MajorPentatonic,
    /// Five notes, no semitone clashes at all. Nearly impossible to make sound
    /// wrong, which is why it is the default for generative patches.
    MinorPentatonic,
    Blues,
    WholeTone,
    /// A Japanese pentatonic scale. Dark and immediately evocative.
    Hirajoshi,
    /// The "Spanish" or Freygish scale. Strong, tense, good for menace.
    PhrygianDominant,
    Chromatic,
}

impl Default for Scale {
    fn default() -> (s: Scale)
        ensures
            s == Scale::MinorPentatonic,
    {
        Scale::MinorPentatonic
    }
}

impl Scale {
    /// Every scale, in the order of its number.
    pub const ALL: [Scale; 14] = [
        Scale::Major,
        Scale::NaturalMinor,
        Scale::HarmonicMinor,
        Scale::Dorian,
        Scale::Phrygian,
        Scale::Lydian,
        Scale::Mixolydian,
        Scale::MajorPentatonic,
        Scale::MinorPentatonic,
        Scale::Blues,
        Scale::WholeTone,
        Scale::Hirajoshi,
        Scale::PhrygianDominant,
        Scale::Chromatic,
    ];

    /// Semitone offsets from the root, one octave.
    pub open spec fn offsets(self) -> Seq<u8> {
        match self {
            Scale::Major => seq![0u8, 2u8, 4u8, 5u8, 7u8, 9u8, 11u8],
            Scale::NaturalMinor => seq![0u8, 2u8, 3u8, 5u8, 7u8, 8u8, 10u8],
            Scale::HarmonicMinor => seq![0u8, 2u8, 3u8, 5u8, 7u8, 8u8, 11u8],
            Scale::Dorian => seq![0u8, 2u8, 3u8, 5u8, 7u8, 9u8, 10u8],
            Scale::Phrygian => seq![0u8, 1u8, 3u8, 5u8, 7u8, 8u8, 10u8],
            Scale::Lydian => seq![0u8, 2u8, 4u8, 6u8, 7u8, 9u8, 11u8],
            Scale::Mixolydian => seq![0u8, 2u8, 4u8, 5u8, 7u8, 9u8, 10u8],
            Scale::MajorPentatonic => seq![0u8, 2u8, 4u8, 7u8, 9u8],
            Scale::MinorPentatonic => seq![0u8, 3u8, 5u8, 7u8, 10u8],
            Scale::Blues => seq![0u8, 3u8, 5u8, 6u8, 7u8, 10u8],
            Scale::WholeTone => seq![0u8, 2u8, 4u8, 6u8, 8u8, 10u8],
            Scale::Hirajoshi => seq![0u8, 2u8, 3u8, 7u8, 8u8],
            Scale::PhrygianDominant => seq![0u8, 1u8, 4u8, 5u8, 7u8, 8u8, 10u8],
            Scale::Chromatic => seq![0u8, 1u8, 2u8, 3u8, 4u8, 5u8, 6u8, 7u8, 8u8, 9u8, 10u8, 11u8],
        }
    }

    /// The number that a settings word holds for this scale.
    pub open spec fn number(self) -> u32 {
        match self {
            Scale::Major => 0,
            Scale::NaturalMinor => 1,
            Scale::HarmonicMinor => 2,
            Scale::Dorian => 3,
            Scale::Phrygian => 4,
            Scale::Lydian => 5,
            Scale::Mixolydian => 6,
            Scale::MajorPentatonic => 7,
            Scale::MinorPentatonic => 8,
            Scale::Blues => 9,
            Scale::WholeTone => 10,
            Scale::Hirajoshi => 11,
            Scale::PhrygianDominant => 12,
            Scale::Chromatic => 13,
        }
    }

    /// Which degrees form the tonic triad.
    pub open spec fn triad(self) -> Seq<usize> {
        match self {
            Scale::MinorPentatonic => seq![0usize, 1, 3],
            Scale::MajorPentatonic => seq![0usize, 2, 3],
            Scale::Hirajoshi => seq![0usize, 2, 3],
            Scale::Blues => seq![0usize, 1, 4],
            Scale::WholeTone => seq![0usize, 2, 4],
            Scale::Chromatic => seq![0usize, 4, 7],
            _ => seq![0usize, 2, 4],
        }
    }

    /// What the scale is called.
    pub open spec fn title(self) -> Seq<char> {
        match self {
            Scale::Major => "Major"@,
            Scale::NaturalMinor => "Natural Minor"@,
            Scale::HarmonicMinor => "Harmonic Minor"@,
            Scale::Dorian => "Dorian"@,
            Scale::Phrygian => "Phrygian"@,
            Scale::Lydian => "Lydian"@,
            Scale::Mixolydian => "Mixolydian"@,
            Scale::MajorPentatonic => "Major Pentatonic"@,
            Scale::MinorPentatonic => "Minor Pentatonic"@,
            Scale::Blues => "Blues"@,
            Scale::WholeTone => "Whole Tone"@,
            Scale::Hirajoshi => "Hirajoshi"@,
            Scale::PhrygianDominant => "Phrygian Dominant"@,
            Scale::Chromatic => "Chromatic"@,
        }
    }

    /// Semitone offsets from the root, one octave.
    pub fn intervals(self) -> (s: &'static [u8])
        ensures
            s@ == self.offsets(),
    {
        match self {
            Scale::Major => &[0, 2, 4, 5, 7, 9, 11],
            Scale::NaturalMinor => &[0, 2, 3, 5, 7, 8, 10],
            Scale::HarmonicMinor => &[0, 2, 3, 5, 7, 8, 11],
            Scale::Dorian => &[0, 2, 3, 5, 7, 9, 10],
            Scale::Phrygian => &[0, 1, 3, 5, 7, 8, 10],
            Scale::Lydian => &[0, 2, 4, 6, 7, 9, 11],
            Scale::Mixolydian => &[0, 2, 4, 5, 7, 9, 10],
            Scale::MajorPentatonic => &[0, 2, 4, 7, 9],
            Scale::MinorPentatonic => &[0, 3, 5, 7, 10],
            Scale::Blues => &[0, 3, 5, 6, 7, 10],
            Scale::WholeTone => &[0, 2, 4, 6, 8, 10],
            Scale::Hirajoshi => &[0, 2, 3, 7, 8],
            Scale::PhrygianDominant => &[0, 1, 4, 5, 7, 8, 10],
            Scale::Chromatic => &[0, 1, 2, 3, 4, 5, 6, 7, 8, 9, 10, 11],
        }
    }

    /// Number of degrees in one octave of this scale.
    pub fn len(self) -> (n: usize)
        ensures
            n == self.offsets().len(),
            5 <= n <= 12,
    {
        proof {
            lemma_offsets(self);
        }
        self.intervals().len()
    }

    /// No scale is empty.
    pub fn is_empty(self) -> (yes: bool)
        ensures
            !yes,
            yes == (self.offsets().len() == 0),
    {
        proof {
            lemma_offsets(self);
        }
        false
    }

    /// The scale with a given number; unknown numbers give the default.
    pub fn from_u32(v: u32) -> (s: Scale)
        ensures
            v < 14 ==> s.number() == v,
            v >= 14 ==> s == Scale::MinorPentatonic,
    {
        if (v as usize) < Scale::ALL.len() {
            Scale::ALL[v as usize]
        } else {
            Scale::MinorPentatonic
        }
    }

    /// The number of this scale.
    pub fn to_u32(self) -> (v: u32)
        ensures
            v == self.number(),
    {
        match self {
            Scale::Major => 0,
            Scale::NaturalMinor => 1,
            Scale::HarmonicMinor => 2,
            Scale::Dorian => 3,
            Scale::Phrygian => 4,
            Scale::Lydian => 5,
            Scale::Mixolydian => 6,
            Scale::MajorPentatonic => 7,
            Scale::MinorPentatonic => 8,
            Scale::Blues => 9,
            Scale::WholeTone => 10,
            Scale::Hirajoshi => 11,
            Scale::PhrygianDominant => 12,
            Scale::Chromatic => 13,
        }
    }

    pub fn name(self) -> (s: &'static str)
        ensures
            s@ == self.title(),
    {
        match self {
            Scale::Major => "Major",
            Scale::NaturalMinor => "Natural Minor",
            Scale::HarmonicMinor => "Harmonic Minor",
            Scale::Dorian => "Dorian",
            Scale::Phrygian => "Phrygian",
            Scale::Lydian => "Lydian",
            Scale::Mixolydian => "Mixolydian",
            Scale::MajorPentatonic => "Major Pentatonic",
            Scale::MinorPentatonic => "Minor Pentatonic",
            Scale::Blues => "Blues",
            Scale::WholeTone => "Whole Tone",
            Scale::Hirajoshi => "Hirajoshi",
            Scale::PhrygianDominant => "Phrygian Dominant",
            Scale::Chromatic => "Chromatic",
        }
    }

    /// Which degrees of this scale form the tonic triad.
    ///
    /// Degrees 0, 2 and 4 are the root, third and fifth for any seven-note
    /// scale. Pentatonic scales have their third and fifth at different
    /// indices, so they get their own answer. Landing on these on a downbeat is
    /// what makes a generated line sound like it has a key centre.
    pub fn chord_degrees(self) -> (s: &'static [usize])
        ensures
            s@ == self.triad(),
    {
        match self {
            Scale::MinorPentatonic => &[0, 1, 3],
            Scale::MajorPentatonic => &[0, 2, 3],
            Scale::Hirajoshi => &[0, 2, 3],
            Scale::Blues => &[0, 1, 4],
            Scale::WholeTone => &[0, 2, 4],
            Scale::Chromatic => &[0, 4, 7],
            _ => &[0, 2, 4],
        }
    }
}

/// A scale starts at its root and climbs inside one octave.
pub proof fn lemma_offsets(s: Scale)
    ensures
        5 <= s.offsets().len() <= 12,
        s.offsets()[0] == 0,
        forall|i: int| 0 <= i < s.offsets().len() ==> 0 <= #[trigger] s.offsets()[i] < 12,
        forall|i: int, j: int|
            0 <= i < j < s.offsets().len() ==> #[trigger] s.offsets()[i] < #[trigger] s.offsets()[j],
{
}

/// A scale survives the trip through its number.
pub proof fn law_number_names_one_scale(a: Scale, b: Scale)
    ensures
        a.number() < 14,
        a.number() == b.number() ==> a == b,
{
}

/// A pitch brought into MIDI range by whole octaves.
///
/// A clamp would silently move the note off the scale: a degree that lands
/// outside the range comes back as the same pitch class in a range that exists.
pub open spec fn folded(note: int) -> int {
    if note < 0 {
        note % 12
    } else if note > 127 {
        116 + (note - 116) % 12
    } else {
        note
    }
}

/// Folding keeps the pitch class and always gives a MIDI note.
pub proof fn lemma_folded(note: int)
    ensures
        0 <= folded(note) <= 127,
        folded(note) % 12 == note % 12,
{
}

fn fold(note: i64) -> (n: u8)
    requires
        -0x10_0000_0000 <= note <= 0x10_0000_0000,
    ensures
        n == folded(note as int),
{
    let ghost start = note as int;
    let mut note: i64 = note;
    while note < 0
        invariant
            note % 12 == start % 12,
            note < 12 || note == start,
            note <= 0x10_0000_0000,
            start >= 0 ==> note == start,
            start < 0 ==> note < 12,
        decreases 12 - note,
    {
        note = note + 12;
    }
    let ghost lifted = note as int;
    while note > 127
        invariant
            note % 12 == start % 12,
            note >= 0,
            lifted > 127 ==> note >= 116,
            lifted <= 127 ==> note == lifted,
        decreases note,
    {
        note = note - 12;
    }
    note as u8
}

/// The remainder that counts downward evenly through zero.
fn residue(a: i32, n: i32) -> (r: i32)
    requires
        0 < n < 1000,
    ensures
        r == a as int % n as int,
        0 <= r < n,
{
    match a.checked_rem_euclid(n) {
        Some(r) => r,
        None => 0,
    }
}

/// Maps scale degrees to MIDI notes, and arbitrary MIDI notes onto the scale.
#[derive(Debug, Clone, Copy, PartialEq, Eq, Structural)]
pub struct ScaleQuantizer {
    /// Pitch class of the tonic, 0 = C.
    pub root: u8,
    pub scale: Scale,
}

impl ScaleQuantizer {
    /// The pitch of a degree, before it is folded into MIDI range. Note 0 is
    /// C-1, so octave `o` starts at `(o + 1) * 12`.
    pub open spec fn pitch(self, degree: int, base_octave: int) -> int {
        let offsets = self.scale.offsets();
        let n = offsets.len() as int;
        (base_octave + 1) * 12 + self.root + offsets[degree % n] + (degree / n) * 12
    }

    /// How far a note lies above the nearest root below it.
    pub open spec fn pitch_class(self, note: int) -> int {
        (note - self.root) % 12
    }

    /// Whether a note belongs to the scale.
    pub open spec fn in_scale(self, note: int) -> bool {
        exists|i: int|
            0 <= i < self.scale.offsets().len() && #[trigger] self.scale.offsets()[i]
                == self.pitch_class(note)
    }

    /// The notes a snap considers, in the order it considers them: each offset
    /// in this octave and then in the next, so that a note just below the root
    /// snaps up rather than down a seventh.
    pub open spec fn candidate(self, j: int) -> int {
        self.scale.offsets()[j / 2] + 12 * (j % 2)
    }

    /// The distance from a pitch class to a candidate.
    pub open spec fn reach(self, j: int, pitch_class: int) -> int {
        let d = self.candidate(j) - pitch_class;
        if d < 0 {
            -d
        } else {
            d
        }
    }

    /// Where a candidate takes a note.
    pub open spec fn landing(self, note: int, j: int) -> int {
        note + self.candidate(j) - self.pitch_class(note)
    }

    /// Whether a candidate takes a MIDI note to another. A number above the MIDI range
    /// may go anywhere, and is folded afterwards.
    pub open spec fn fits(self, note: int, j: int) -> bool {
        note > 127 || 0 <= self.landing(note, j) <= 127
    }

    /// Whether candidate `j` is the nearest that fits, and the first that is.
    pub open spec fn first_nearest(self, note: int, j: int) -> bool {
        let pc = self.pitch_class(note);
        &&& 0 <= j < 2 * self.scale.offsets().len()
        &&& self.fits(note, j)
        &&& forall|i: int|
            0 <= i < 2 * self.scale.offsets().len() && self.fits(note, i) ==> self.reach(j, pc)
                <= #[trigger] self.reach(i, pc)
        &&& forall|i: int|
            0 <= i < j && self.fits(note, i) ==> self.reach(j, pc) < #[trigger] self.reach(i, pc)
    }

    /// Whether `s` is where `note` snaps to.
    pub open spec fn snaps_to(self, note: int, s: int) -> bool {
        exists|j: int| #[trigger]
            self.first_nearest(note, j) && s == folded(self.landing(note, j))
    }

    pub fn new(root: u8, scale: Scale) -> (q: ScaleQuantizer)
        ensures
            q.root == root % 12,
            q.scale == scale,
    {
        ScaleQuantizer { root: root % 12, scale }
    }

    /// Converts a scale degree to a MIDI note.
    ///
    /// Degrees are unbounded in both directions: degree 7 of a seven-note scale
    /// is the root an octave up, degree -1 is the seventh an octave down. That
    /// is what lets melodic movement be simple integer arithmetic.
    pub fn degree_to_midi(&self, degree: i32, base_octave: i32) -> (note: u8)
        ensures
            note == folded(self.pitch(degree as int, base_octave as int)),
            note <= 127,
            self.in_scale(note as int),
    {
        let intervals = self.scale.intervals();
        proof {
            lemma_offsets(self.scale);
        }
        let n: i32 = intervals.len() as i32;
        let rest: i32 = residue(degree, n);
        let index: usize = rest as usize;
        proof {
            let d = degree as int;
            assert(d == n * (d / n as int) + d % n as int) by {
                vstd::arithmetic::div_mod::lemma_fundamental_div_mod(d, n as int);
            }
            assert(-0x8000_0000 <= d / n as int <= 0x7FFF_FFFF) by (nonlinear_arith)
                requires
                    -0x8000_0000 <= d <= 0x7FFF_FFFF,
                    n >= 1,
            ;
        }
        let octave: i64 = floor_div(degree, n);
        let base: i64 = (base_octave as i64 + 1) * 12 + self.root as i64;
        let note: i64 = base + intervals[index] as i64 + octave * 12;
        proof {
            law_degrees_stay_in_scale(*self, degree as int, base_octave as int);
            lemma_folded(note as int);
        }
        fold(note)
    }

    /// Snaps any MIDI note to the nearest MIDI note in the scale.
    ///
    /// Useful for quantizing a live keyboard, or for forcing a hand-written
    /// pattern into a key that the player changed at runtime.
    pub fn snap(&self, note: u8) -> (s: u8)
        ensures
            self.snaps_to(note as int, s as int),
            s <= 127,
            self.in_scale(s as int),
    {
        let intervals = self.scale.intervals();
        proof {
            lemma_offsets(self.scale);
        }
        let pitch_class: i32 = residue(note as i32 - self.root as i32, 12);
        let ghost pc = pitch_class as int;
        let mut best: i32 = intervals[0] as i32;
        let mut best_distance: i32 = 1000;
        let ghost n = note as int;
        let ghost mut at: int = 0;
        let ghost mut found: bool = false;
        let mut k: usize = 0;
        while k < 2 * intervals.len()
            invariant
                intervals@ == self.scale.offsets(),
                5 <= intervals.len() <= 12,
                forall|i: int| 0 <= i < intervals.len() ==> 0 <= #[trigger] intervals[i] < 12,
                0 <= pc < 12,
                pc == pitch_class,
                pc == self.pitch_class(n),
                n == note,
                k <= 2 * intervals.len(),
                !found ==> best_distance == 1000,
                found ==> {
                    &&& 0 <= at < k
                    &&& self.fits(n, at)
                    &&& best == self.candidate(at)
                    &&& best_distance == self.reach(at, pc)
                },
                forall|i: int| 0 <= i < k && #[trigger] self.fits(n, i) ==> found,
                forall|i: int|
                    0 <= i < k && self.fits(n, i) ==> best_distance <= #[trigger] self.reach(i, pc),
                forall|i: int|
                    0 <= i < at && found && self.fits(n, i) ==> best_distance
                        < #[trigger] self.reach(i, pc),
            decreases 2 * intervals.len() - k,
        {
            let iv: i32 = intervals[k / 2] as i32;
            let candidate: i32 = if k % 2 == 0 {
                iv
            } else {
                iv + 12
            };
            assert(candidate == self.candidate(k as int));
            let d: i32 = if candidate < pitch_class {
                pitch_class - candidate
            } else {
                candidate - pitch_class
            };
            assert(d == self.reach(k as int, pc));
            let landing: i32 = note as i32 + candidate - pitch_class;
            let fits: bool = note > 127 || (0 <= landing && landing <= 127);
            assert(fits == self.fits(n, k as int) && d < 1000);
            if fits && d < best_distance {
                best_distance = d;
                best = candidate;
                proof {
                    at = k as int;
                    found = true;
                }
            }
            k = k + 1;
        }
        proof {
            // Either the root below fits, or the one above it does.
            let (d0, d1) = (self.reach(0, pc), self.reach(1, pc));
            assert(self.fits(n, 0) || self.fits(n, 1));
        }
        assert(self.first_nearest(n, at));
        let snapped: i64 = note as i64 + (best - pitch_class) as i64;
        proof {
            lemma_folded(snapped as int);
            lemma_candidate_in_scale(*self, note as int, at);
        }
        fold(snapped)
    }

    /// True if the note is already in the scale.
    pub fn contains(&self, note: u8) -> (yes: bool)
        ensures
            yes == self.in_scale(note as int),
    {
        let pitch_class: i32 = residue(note as i32 - self.root as i32, 12);
        let intervals = self.scale.intervals();
        let mut i: usize = 0;
        while i < intervals.len()
            invariant
                i <= intervals.len(),
                intervals@ == self.scale.offsets(),
                pitch_class == self.pitch_class(note as int),
                forall|k: int| 0 <= k < i ==> #[trigger] intervals[k] != pitch_class,
            decreases intervals.len() - i,
        {
            if intervals[i] as i32 == pitch_class {
                assert(self.scale.offsets()[i as int] == self.pitch_class(note as int));
                return true;
            }
            i = i + 1;
        }
        false
    }
}

/// How strongly a step is pulled toward chord tones: half as much off the beat.
pub open spec fn chord_pull(chord_bias: Single, strong_beat: bool) -> Single {
    if strong_beat {
        chord_bias
    } else {
        chord_bias.product(of(0x3F00_0000))
    }
}

impl ScaleQuantizer {
    /// The weight of a degree in a random choice: chord tones up to five times
    /// the baseline, the others never down to nothing, and the root a little
    /// extra on top, so lines resolve.
    pub open spec fn degree_weight(self, chord_bias: Single, strong_beat: bool, i: int) -> Single {
        let pull = chord_pull(chord_bias, strong_beat);
        let w = if self.scale.triad().contains(i as usize) {
            of(0x3F80_0000).sum(pull.product(of(0x4080_0000)))
        } else {
            of(0x3F80_0000).difference(pull.product(of(0x3ECC_CCCD)))
        };
        if i == 0 {
            w.sum(pull)
        } else {
            w
        }
    }

    /// Builds a weight per scale degree for random selection; what lies past the
    /// end of the scale is unreachable.
    ///
    /// `chord_bias` in `0.0..=1.0` decides how strongly chord tones are
    /// favoured; `strong_beat` says whether this step is a downbeat. Off the
    /// beat the weights flatten out, so passing tones fill the gaps.
    pub fn degree_weights(&self, chord_bias: Single, strong_beat: bool, out: &mut Vec<Single>)
        ensures
            final(out)@.len() == old(out)@.len(),
            forall|i: int|
                0 <= i < final(out)@.len() ==> #[trigger] final(out)@[i] == (if i
                    < self.scale.offsets().len() {
                    self.degree_weight(chord_bias, strong_beat, i)
                } else {
                    of(0)
                }),
    {
        let n: usize = self.scale.len();
        let chord = self.scale.chord_degrees();
        let pull: Single = if strong_beat {
            chord_bias
        } else {
            chord_bias.times(of(0x3F00_0000))
        };
        let len: usize = out.len();
        let mut i: usize = 0;
        while i < len
            invariant
                i <= len,
                len == out@.len(),
                len == old(out)@.len(),
                n == self.scale.offsets().len(),
                chord@ == self.scale.triad(),
                chord@.len() == 3,
                pull == chord_pull(chord_bias, strong_beat),
                forall|k: int|
                    0 <= k < i ==> #[trigger] out@[k] == (if k < n {
                        self.degree_weight(chord_bias, strong_beat, k)
                    } else {
                        of(0)
                    }),
            decreases len - i,
        {
            let w: Single = if i < n {
                let chord_tone: bool = chord[0] == i || chord[1] == i || chord[2] == i;
                assert(chord_tone == self.scale.triad().contains(i)) by {
                    if chord_tone {
                        assert(chord@[0] == i || chord@[1] == i || chord@[2] == i);
                    }
                }
                let base: Single = if chord_tone {
                    of(0x3F80_0000).plus(pull.times(of(0x4080_0000)))
                } else {
                    of(0x3F80_0000).minus(pull.times(of(0x3ECC_CCCD)))
                };
                if i == 0 {
                    base.plus(pull)
                } else {
                    base
                }
            } else {
                of(0)
            };
            out.set(i, w);
            i = i + 1;
        }
    }
}

/// The quotient that goes with `residue`.
fn floor_div(a: i32, n: i32) -> (q: i64)
    requires
        0 < n < 1000,
    ensures
        q == a as int / n as int,
{
    let r: i32 = residue(a, n);
    let whole: i64 = a as i64 - r as i64;
    proof {
        vstd::arithmetic::div_mod::lemma_fundamental_div_mod(a as int, n as int);
    }
    let ghost q = a as int / n as int;
    if whole >= 0 {
        let up: u64 = whole as u64 / n as u64;
        assert(up == q) by {
            vstd::arithmetic::div_mod::lemma_div_multiples_vanish(q, n as int);
            assert(whole == n * q);
        }
        assert(up <= whole) by (nonlinear_arith)
            requires
                up == whole as int / n as int,
                n >= 1,
                whole >= 0,
        ;
        up as i64
    } else {
        let down: u64 = (-whole) as u64 / n as u64;
        assert(down == -q) by {
            vstd::arithmetic::div_mod::lemma_div_multiples_vanish(-q, n as int);
            assert(-whole == n * (-q)) by (nonlinear_arith)
                requires
                    whole == n * q,
            ;
        }
        assert(down <= -whole) by (nonlinear_arith)
            requires
                down == (-whole) / n as int,
                n >= 1,
                whole < 0,
        ;
        -(down as i64)
    }
}

/// A candidate of a snap is a note of the scale, folded or not.
proof fn lemma_candidate_in_scale(q: ScaleQuantizer, note: int, j: int)
    requires
        0 <= j < 2 * q.scale.offsets().len(),
    ensures
        q.in_scale(folded(note + q.candidate(j) - q.pitch_class(note))),
{
    lemma_offsets(q.scale);
    let s = note + q.candidate(j) - q.pitch_class(note);
    lemma_folded(s);
    let offset = q.scale.offsets()[j / 2];
    assert((s - q.root) % 12 == offset % 12);
    assert(q.pitch_class(folded(s)) == offset);
}

/// Every degree, in every octave, is a note of the scale: nothing the
/// generator can ask for leaves the key.
pub proof fn law_degrees_stay_in_scale(q: ScaleQuantizer, degree: int, base_octave: int)
    ensures
        q.in_scale(folded(q.pitch(degree, base_octave))),
{
    lemma_offsets(q.scale);
    let n = q.scale.offsets().len() as int;
    let p = q.pitch(degree, base_octave);
    let offset = q.scale.offsets()[degree % n];
    lemma_folded(p);
    assert((p - q.root) % 12 == offset % 12);
    assert(q.pitch_class(folded(p)) == offset);
}

/// A whole scale length up is an octave up, and down is an octave down.
pub proof fn law_scale_length_is_an_octave(q: ScaleQuantizer, degree: int, base_octave: int)
    ensures
        q.pitch(degree + q.scale.offsets().len(), base_octave) == q.pitch(degree, base_octave) + 12,
        q.pitch(degree - q.scale.offsets().len(), base_octave) == q.pitch(degree, base_octave) - 12,
{
    lemma_offsets(q.scale);
    let n = q.scale.offsets().len() as int;
    vstd::arithmetic::div_mod::lemma_mod_add_multiples_vanish(degree, n);
    vstd::arithmetic::div_mod::lemma_mod_sub_multiples_vanish(degree, n);
    vstd::arithmetic::div_mod::lemma_div_plus_one(degree, n);
    vstd::arithmetic::div_mod::lemma_div_minus_one(degree, n);
}

/// Degree zero of octave `o` is its root.
pub proof fn law_degree_zero_is_the_root(q: ScaleQuantizer, base_octave: int)
    ensures
        q.pitch(0, base_octave) == (base_octave + 1) * 12 + q.root,
{
    lemma_offsets(q.scale);
}

/// Higher degrees are higher notes.
pub proof fn law_degrees_climb(q: ScaleQuantizer, degree: int, base_octave: int)
    ensures
        q.pitch(degree, base_octave) < q.pitch(degree + 1, base_octave),
{
    lemma_offsets(q.scale);
    let n = q.scale.offsets().len() as int;
    let (d, r) = (degree / n, degree % n);
    vstd::arithmetic::div_mod::lemma_fundamental_div_mod(degree, n);
    if r + 1 < n {
        assert(degree + 1 == d * n + (r + 1)) by (nonlinear_arith)
            requires
                degree == n * d + r,
        ;
        vstd::arithmetic::div_mod::lemma_fundamental_div_mod_converse(degree + 1, n, d, r + 1);
    } else {
        assert(degree + 1 == (d + 1) * n + 0) by (nonlinear_arith)
            requires
                degree == n * d + r,
                r + 1 == n,
        ;
        vstd::arithmetic::div_mod::lemma_fundamental_div_mod_converse(degree + 1, n, d + 1, 0);
    }
}

/// A note that is already in the scale stays where it is.
pub proof fn law_snap_leaves_scale_notes_alone(q: ScaleQuantizer, note: int, s: int)
    requires
        0 <= note <= 127,
        q.in_scale(note),
        q.snaps_to(note, s),
    ensures
        s == note,
{
    lemma_offsets(q.scale);
    let pc = q.pitch_class(note);
    let i = choose|i: int|
        0 <= i < q.scale.offsets().len() && #[trigger] q.scale.offsets()[i] == pc;
    let j = choose|j: int| #[trigger]
        q.first_nearest(note, j) && s == folded(q.landing(note, j));
    assert((2 * i) / 2 == i && (2 * i) % 2 == 0);
    assert(q.fits(note, 2 * i));
    assert(q.reach(2 * i, pc) == 0);
}

/// A snap finds the nearest: no MIDI note of the scale lies closer.
pub proof fn law_snap_is_nearest(q: ScaleQuantizer, note: int, s: int, other: int)
    requires
        0 <= note <= 127,
        q.snaps_to(note, s),
        0 <= other <= 127,
        q.in_scale(other),
    ensures
        0 <= s <= 127,
        s >= note ==> s - note <= (if other >= note {
            other - note
        } else {
            note - other
        }),
        s < note ==> note - s <= (if other >= note {
            other - note
        } else {
            note - other
        }),
{
    lemma_offsets(q.scale);
    let pc = q.pitch_class(note);
    let i = choose|i: int|
        0 <= i < q.scale.offsets().len() && #[trigger] q.scale.offsets()[i] == q.pitch_class(other);
    let j = choose|j: int| #[trigger]
        q.first_nearest(note, j) && s == folded(q.landing(note, j));
    let offset = q.scale.offsets()[i] as int;
    assert((2 * i) / 2 == i && (2 * i) % 2 == 0);
    assert((2 * i + 1) / 2 == i && (2 * i + 1) % 2 == 1);
    let turns = (other - q.root) / 12 - (note - q.root) / 12;
    assert(other - note == 12 * turns + offset - pc);
    // The same pitch class in this octave, in the next, and the root below.
    let (here, above, root) = (q.reach(2 * i, pc), q.reach(2 * i + 1, pc), q.reach(0, pc));
    if turns >= 1 {
        if offset >= pc {
            assert(q.fits(note, 2 * i));
        } else {
            assert(q.fits(note, 2 * i + 1));
        }
    } else if turns == 0 {
        assert(q.fits(note, 2 * i));
    } else {
        if offset <= pc {
            assert(q.fits(note, 2 * i));
        } else {
            assert(q.fits(note, 0));
        }
    }
}

/// A snap moves a note by a whole tone at most, and by no more than a minor third where
/// the end of the range is in the way; anything more and a melody would not be
/// recognised.
pub proof fn law_snap_stays_close(q: ScaleQuantizer, note: int, s: int)
    requires
        0 <= note <= 127,
        q.snaps_to(note, s),
    ensures
        -3 <= s - note <= 3,
        2 <= note <= 125 ==> -2 <= s - note <= 2,
{
    lemma_offsets(q.scale);
    let pc = q.pitch_class(note);
    let j = choose|j: int| #[trigger]
        q.first_nearest(note, j) && s == folded(q.landing(note, j));
    lemma_gaps(q, pc);
    let i = choose|i: int|
        0 <= i < 2 * q.scale.offsets().len() && #[trigger] q.reach(i, pc) <= 2;
    let below = choose|i: int|
        0 <= i < 2 * q.scale.offsets().len() && #[trigger] q.reach(i, pc) <= 3 && q.candidate(i)
            <= pc;
    let above = choose|i: int|
        0 <= i < 2 * q.scale.offsets().len() && #[trigger] q.reach(i, pc) <= 3 && q.candidate(i)
            >= pc;
    if 2 <= note <= 125 {
        assert(q.fits(note, i));
        assert(q.reach(j, pc) <= q.reach(i, pc));
    }
    if note >= 3 {
        assert(q.fits(note, below));
        assert(q.reach(j, pc) <= q.reach(below, pc));
    } else {
        assert(q.fits(note, above));
        assert(q.reach(j, pc) <= q.reach(above, pc));
    }
}

/// No pitch class is further than a whole tone from its scale, nor than a minor third
/// from it on either side.
proof fn lemma_gaps(q: ScaleQuantizer, pc: int)
    requires
        0 <= pc < 12,
    ensures
        exists|i: int|
            0 <= i < 2 * q.scale.offsets().len() && #[trigger] q.reach(i, pc) <= 2,
        exists|i: int|
            0 <= i < 2 * q.scale.offsets().len() && #[trigger] q.reach(i, pc) <= 3
                && q.candidate(i) <= pc,
        exists|i: int|
            0 <= i < 2 * q.scale.offsets().len() && #[trigger] q.reach(i, pc) <= 3
                && q.candidate(i) >= pc,
{
    lemma_offsets(q.scale);
    let d0 = q.reach(0, pc);
    let d1 = q.reach(1, pc);
    let d2 = q.reach(2, pc);
    let d4 = q.reach(4, pc);
    let d6 = q.reach(6, pc);
    let d8 = q.reach(8, pc);
    if q.scale.offsets().len() > 5 {
        let d10 = q.reach(10, pc);
        if q.scale.offsets().len() > 6 {
            let d12 = q.reach(12, pc);
            if q.scale.offsets().len() > 7 {
                assert(q.scale.offsets()[pc] == pc);
                assert((2 * pc) / 2 == pc && (2 * pc) % 2 == 0);
                assert(q.reach(2 * pc, pc) == 0);
            }
        }
    }
}

} // verus!
