//! The stereo delay, and the note divisions it can lock to.

use crate::curve;
use crate::curve::Curve;
use crate::line;
use crate::line::DelayLine;
use crate::params::{of, Params};
use crate::reverb;
use crate::reverb::{ceil_samples, glide_coef};
use crate::single;
use crate::single::Single;
use crate::smooth::Smoothed;
use vstd::prelude::*;

verus! {

/// How long one delay repeat lasts, in musical time.
///
/// Ordered longest to shortest, which is how a musician thinks about them.
#[derive(Debug, Clone, Copy, PartialEq, Eq, Structural)]
pub enum NoteDivision {
    Whole,
    Half,
    QuarterDot,
    Quarter,
    EighthDot,
    Eighth,
    EighthTriplet,
    Sixteenth,
    SixteenthTriplet,
}

impl Default for NoteDivision {
    fn default() -> (x: NoteDivision)
        ensures
            x == NoteDivision::Eighth,
    {
        NoteDivision::Eighth
    }
}

impl NoteDivision {
    /// Every value, in the order of its number.
    pub const ALL: [NoteDivision; 9] = [
        NoteDivision::Whole,
        NoteDivision::Half,
        NoteDivision::QuarterDot,
        NoteDivision::Quarter,
        NoteDivision::EighthDot,
        NoteDivision::Eighth,
        NoteDivision::EighthTriplet,
        NoteDivision::Sixteenth,
        NoteDivision::SixteenthTriplet,
    ];

    /// The number that a settings word holds for this value.
    pub open spec fn number(self) -> u32 {
        match self {
            NoteDivision::Whole => 0,
            NoteDivision::Half => 1,
            NoteDivision::QuarterDot => 2,
            NoteDivision::Quarter => 3,
            NoteDivision::EighthDot => 4,
            NoteDivision::Eighth => 5,
            NoteDivision::EighthTriplet => 6,
            NoteDivision::Sixteenth => 7,
            NoteDivision::SixteenthTriplet => 8,
        }
    }

    /// The value with a given number; unknown numbers give `Eighth` rather
    /// than a panic, because this runs on the audio thread.
    pub fn from_u32(v: u32) -> (x: NoteDivision)
        ensures
            v < 9 ==> x.number() == v,
            v >= 9 ==> x == NoteDivision::Eighth,
    {
        match v {
            0 => NoteDivision::Whole,
            1 => NoteDivision::Half,
            2 => NoteDivision::QuarterDot,
            3 => NoteDivision::Quarter,
            4 => NoteDivision::EighthDot,
            5 => NoteDivision::Eighth,
            6 => NoteDivision::EighthTriplet,
            7 => NoteDivision::Sixteenth,
            8 => NoteDivision::SixteenthTriplet,
            _ => NoteDivision::Eighth,
        }
    }

    /// The number of this value.
    pub fn to_u32(self) -> (v: u32)
        ensures
            v == self.number(),
            v < 9,
    {
        match self {
            NoteDivision::Whole => 0,
            NoteDivision::Half => 1,
            NoteDivision::QuarterDot => 2,
            NoteDivision::Quarter => 3,
            NoteDivision::EighthDot => 4,
            NoteDivision::Eighth => 5,
            NoteDivision::EighthTriplet => 6,
            NoteDivision::Sixteenth => 7,
            NoteDivision::SixteenthTriplet => 8,
        }
    }

    /// What the value is called on the panel.
    pub open spec fn title(self) -> Seq<char> {
        match self {
            NoteDivision::Whole => "1/1"@,
            NoteDivision::Half => "1/2"@,
            NoteDivision::QuarterDot => "1/4."@,
            NoteDivision::Quarter => "1/4"@,
            NoteDivision::EighthDot => "1/8."@,
            NoteDivision::Eighth => "1/8"@,
            NoteDivision::EighthTriplet => "1/8T"@,
            NoteDivision::Sixteenth => "1/16"@,
            NoteDivision::SixteenthTriplet => "1/16T"@,
        }
    }

    pub fn name(self) -> (s: &'static str)
        ensures
            s@ == self.title(),
    {
        match self {
            NoteDivision::Whole => "1/1",
            NoteDivision::Half => "1/2",
            NoteDivision::QuarterDot => "1/4.",
            NoteDivision::Quarter => "1/4",
            NoteDivision::EighthDot => "1/8.",
            NoteDivision::Eighth => "1/8",
            NoteDivision::EighthTriplet => "1/8T",
            NoteDivision::Sixteenth => "1/16",
            NoteDivision::SixteenthTriplet => "1/16T",
        }
    }
}

/// A number names one value: each survives the trip through a settings word.
pub proof fn law_note_division_number(a: NoteDivision, b: NoteDivision)
    ensures
        a.number() < 9,
        a.number() == b.number() ==> a == b,
{
}

impl NoteDivision {
    /// Length in beats, where one beat is a quarter note, as a fraction.
    pub open spec fn fraction(self) -> (nat, nat) {
        match self {
            NoteDivision::Whole => (4, 1),
            NoteDivision::Half => (2, 1),
            NoteDivision::QuarterDot => (3, 2),
            NoteDivision::Quarter => (1, 1),
            NoteDivision::EighthDot => (3, 4),
            NoteDivision::Eighth => (1, 2),
            NoteDivision::EighthTriplet => (1, 3),
            NoteDivision::Sixteenth => (1, 4),
            NoteDivision::SixteenthTriplet => (1, 6),
        }
    }

    /// Length in beats.
    pub open spec fn length(self) -> Single {
        Single { bits: single::ratio_bits(self.fraction().0, self.fraction().1) as u32 }
    }

    /// The tempo a length in seconds is reckoned at: held to the range a clock
    /// accepts, and 120 where it is not a finite number.
    pub open spec fn usable_tempo(bpm: Single) -> Single {
        if bpm.finite() {
            bpm.clamped(Single { bits: 0x41A0_0000 }, Single { bits: 0x4396_0000 })
        } else {
            Single { bits: 0x42F0_0000 }
        }
    }

    /// Length in beats, where one beat is a quarter note.
    pub fn beats(self) -> (x: Single)
        ensures
            x == self.length(),
    {
        match self {
            NoteDivision::Whole => Single::ratio(4, 1),
            NoteDivision::Half => Single::ratio(2, 1),
            NoteDivision::QuarterDot => Single::ratio(3, 2),
            NoteDivision::Quarter => Single::ratio(1, 1),
            NoteDivision::EighthDot => Single::ratio(3, 4),
            NoteDivision::Eighth => Single::ratio(1, 2),
            NoteDivision::EighthTriplet => Single::ratio(1, 3),
            NoteDivision::Sixteenth => Single::ratio(1, 4),
            NoteDivision::SixteenthTriplet => Single::ratio(1, 6),
        }
    }

    /// Length in seconds at the given tempo.
    ///
    /// The tempo is clamped because a clock reports 0 until it has measured
    /// one, and 0 BPM means an infinitely long note.
    pub fn seconds(self, tempo_bpm: Single) -> (x: Single)
        ensures
            x == self.length().product(Single { bits: 0x4270_0000 }).quotient(
                NoteDivision::usable_tempo(tempo_bpm),
            ),
    {
        let bpm: Single = if tempo_bpm.is_finite() {
            tempo_bpm.clamp(Single { bits: 0x41A0_0000 }, Single { bits: 0x4396_0000 })
        } else {
            Single { bits: 0x42F0_0000 }
        };
        self.beats().times(Single { bits: 0x4270_0000 }).over(bpm)
    }
}

/// One line of the delay, newest first, and what its damping has let through so far.
#[verifier::ext_equal]
pub struct Echo {
    pub line: Seq<Single>,
    pub dark: Single,
}

/// What stays the same over a chunk.
pub struct EchoSetting {
    /// How far back the lines are read, in samples.
    pub time: Single,
    pub feedback: Single,
    /// How much of its darkness a repeat keeps from one sample to the next.
    pub keep: Single,
    pub ping_pong: bool,
}

impl Echo {
    /// The repeat that comes off the line next, a little darker than it went in.
    pub open spec fn repeat(self, s: EchoSetting) -> Single {
        let delayed = line::between(self.line, s.time.difference(of(0x3F80_0000)));
        self.dark.sum(
            of(0x3F80_0000).difference(s.keep).product(delayed.difference(self.dark)),
        )
    }

    pub open spec fn cleared(self) -> Echo {
        Echo { line: line::silent(self.line.len()), dark: of(0) }
    }
}

/// Both lines of the delay.
#[verifier::ext_equal]
pub struct Echoes {
    pub left: Echo,
    pub right: Echo,
}

impl Echoes {
    /// What goes into the left line. With the lines crossed it takes both channels, and
    /// what comes off the other line.
    pub open spec fn fed_left(self, dry: (Single, Single), s: EchoSetting) -> Single {
        if s.ping_pong {
            dry.0.sum(dry.1).product(of(0x3F00_0000)).sum(self.right.repeat(s).product(s.feedback))
        } else {
            dry.0.sum(self.left.repeat(s).product(s.feedback))
        }
    }

    /// What goes into the right line.
    pub open spec fn fed_right(self, dry: (Single, Single), s: EchoSetting) -> Single {
        if s.ping_pong {
            self.left.repeat(s).product(s.feedback)
        } else {
            dry.1.sum(self.right.repeat(s).product(s.feedback))
        }
    }

    /// The lines after a sample.
    pub open spec fn after(self, dry: (Single, Single), s: EchoSetting) -> Echoes {
        Echoes {
            left: Echo {
                line: line::pushed(self.left.line, self.fed_left(dry, s)),
                dark: self.left.repeat(s),
            },
            right: Echo {
                line: line::pushed(self.right.line, self.fed_right(dry, s)),
                dark: self.right.repeat(s),
            },
        }
    }

    /// The lines after the first `n` samples of a chunk.
    pub open spec fn after_all(self, left: Seq<Single>, right: Seq<Single>, s: EchoSetting, n: int) -> Echoes
        decreases n,
    {
        if n <= 0 {
            self
        } else {
            self.after_all(left, right, s, n - 1).after((left[n - 1], right[n - 1]), s)
        }
    }

    pub open spec fn cleared(self) -> Echoes {
        Echoes { left: self.left.cleared(), right: self.right.cleared() }
    }
}

/// How long a repeat takes, in seconds: as its division has it at the clock's tempo, or
/// as its knob does.
pub open spec fn wanted_seconds(p: Params, tempo_bpm: Single) -> Single {
    let seconds = if p.delay_sync {
        p.delay_division.length().product(of(0x4270_0000)).quotient(
            NoteDivision::usable_tempo(tempo_bpm),
        )
    } else {
        p.delay_time
    };
    seconds.clamped(of(0x3A83_126F), of(0x4000_0000))
}

/// A stereo delay: two lines of two seconds, side by side or crossed.
#[derive(Debug)]
pub struct StereoDelay {
    pub sample_rate: Single,
    pub line_l: DelayLine,
    pub line_r: DelayLine,
    pub dark_l: Single,
    pub dark_r: Single,
    pub mix: Smoothed,
    pub feedback: Smoothed,
    pub damping: Smoothed,
    pub time: Smoothed,
    /// Whether it went out of the way, and its lines are empty.
    pub bypassed: bool,
}

impl View for StereoDelay {
    type V = Echoes;

    open spec fn view(&self) -> Echoes {
        Echoes {
            left: Echo { line: self.line_l@, dark: self.dark_l },
            right: Echo { line: self.line_r@, dark: self.dark_r },
        }
    }
}

impl StereoDelay {
    pub open spec fn wf(self) -> bool {
        &&& self.line_l.wf()
        &&& self.line_r.wf()
        &&& self.line_l@.len() == self.line_r@.len()
    }

    /// The time that a patch asks for, in samples: held to the line.
    pub open spec fn wanted_time(self, p: Params, tempo_bpm: Single) -> Single {
        wanted_seconds(p, tempo_bpm).product(self.sample_rate).clamped(
            of(0),
            Single::nearest_to(self.line_l@.len() - 1),
        )
    }

    /// Whether the controls are where they were.
    pub open spec fn same_controls(self, other: StereoDelay) -> bool {
        &&& self.mix == other.mix
        &&& self.feedback == other.feedback
        &&& self.damping == other.damping
        &&& self.time == other.time
    }

    /// Whether the controls aim at a patch.
    pub open spec fn aimed(self, old: StereoDelay, p: Params, tempo_bpm: Single) -> bool {
        &&& self.mix == (Smoothed { target: p.delay_mix, ..old.mix })
        &&& self.feedback == (Smoothed { target: p.delay_feedback, ..old.feedback })
        &&& self.damping == (Smoothed { target: p.delay_damping, ..old.damping })
        &&& self.time == (Smoothed { target: old.wanted_time(p, tempo_bpm), ..old.time })
    }

    /// Whether the controls are one step closer to a patch.
    pub open spec fn stepped(self, old: StereoDelay, p: Params, tempo_bpm: Single) -> bool {
        &&& self.mix == (Smoothed { target: p.delay_mix, ..old.mix }).advanced()
        &&& self.feedback == (Smoothed { target: p.delay_feedback, ..old.feedback }).advanced()
        &&& self.damping == (Smoothed { target: p.delay_damping, ..old.damping }).advanced()
        &&& self.time == (Smoothed {
            target: old.wanted_time(p, tempo_bpm),
            ..old.time
        }).advanced()
    }

    /// What stays the same over a chunk, with the controls where they are.
    pub open spec fn setting(self, p: Params) -> EchoSetting {
        EchoSetting {
            time: self.time.value,
            feedback: self.feedback.value,
            keep: self.damping.value.product(of(0x3F73_3333)),
            ping_pong: p.delay_ping_pong,
        }
    }

    /// Whether the delay is off: nothing wanted, and nothing left of it.
    pub open spec fn off(self, p: Params) -> bool {
        p.delay_mix.magnitude() == 0 && self.mix.value.magnitude() == 0
    }

    /// A fresh delay: silent, with the controls at the default patch.
    pub open spec fn fresh<F: Fn(Curve, Single) -> Single>(self, f: F, sample_rate: Single) -> bool {
        let quick = reverb::glide(f, of(0x41C8_0000), sample_rate);
        let slow = reverb::glide(f, of(0x42F0_0000), sample_rate);
        let rate = reverb::usable_rate(sample_rate);
        let time = of(0x3EC0_0000).product(rate);
        &&& self.wf()
        &&& self.sample_rate == rate
        &&& self@ == self@.cleared()
        &&& line::reaches(
            self@.left.line.len(),
            reverb::samples_up(of(0x4000_0000).product(rate)),
        )
        &&& self.mix == (Smoothed { value: of(0), target: of(0), coef: quick })
        &&& self.feedback == (Smoothed {
            value: of(0x3EB3_3333),
            target: of(0x3EB3_3333),
            coef: quick,
        })
        &&& self.damping == (Smoothed {
            value: of(0x3E99_999A),
            target: of(0x3E99_999A),
            coef: quick,
        })
        &&& self.time == (Smoothed { value: time, target: time, coef: slow })
        &&& !self.bypassed
    }

    /// Whether the lines were emptied, and every control jumped to a patch.
    pub open spec fn snapped(self, old: StereoDelay, p: Params, tempo_bpm: Single) -> bool {
        let time = old.wanted_time(p, tempo_bpm);
        &&& self.wf()
        &&& self.sample_rate == old.sample_rate
        &&& self@ == old@.cleared()
        &&& !self.bypassed
        &&& self.mix == (Smoothed { value: p.delay_mix, target: p.delay_mix, ..old.mix })
        &&& self.feedback == (Smoothed {
            value: p.delay_feedback,
            target: p.delay_feedback,
            ..old.feedback
        })
        &&& self.damping == (Smoothed {
            value: p.delay_damping,
            target: p.delay_damping,
            ..old.damping
        })
        &&& self.time == (Smoothed { value: time, target: time, ..old.time })
    }

    /// Whether a chunk went through, and came out as `out`: untouched while the delay is
    /// off; else with the controls one step on, and every sample blended with its repeat.
    /// What one channel has beyond the other is left alone.
    #[verifier::opaque]
    pub open spec fn passed(
        self,
        old: StereoDelay,
        dry: (Seq<Single>, Seq<Single>),
        out: (Seq<Single>, Seq<Single>),
        p: Params,
        tempo_bpm: Single,
    ) -> bool {
        let s = self.setting(p);
        let n = line::frames(dry);
        &&& self.sample_rate == old.sample_rate
        &&& old.off(p) ==> {
            &&& out == dry
            &&& self.bypassed
            &&& self.same_controls(old)
            &&& self@ == (if old.bypassed {
                old@
            } else {
                old@.cleared()
            })
        }
        &&& !old.off(p) ==> {
            &&& !self.bypassed
            &&& self.stepped(old, p, tempo_bpm)
            &&& self@ == old@.after_all(dry.0, dry.1, s, n as int)
            &&& out.0.len() == dry.0.len()
            &&& out.1.len() == dry.1.len()
            &&& forall|i: int|
                0 <= i < dry.0.len() ==> #[trigger] out.0[i] == (if i < n {
                    reverb::blended(
                        dry.0[i],
                        old@.after_all(dry.0, dry.1, s, i + 1).left.dark,
                        self.mix.value,
                    )
                } else {
                    dry.0[i]
                })
            &&& forall|i: int|
                0 <= i < dry.1.len() ==> #[trigger] out.1[i] == (if i < n {
                    reverb::blended(
                        dry.1[i],
                        old@.after_all(dry.0, dry.1, s, i + 1).right.dark,
                        self.mix.value,
                    )
                } else {
                    dry.1[i]
                })
        }
    }

    /// An empty delay. The time glides slower than the other controls, because a step of
    /// it is a click. Not for the callback: it allocates both lines.
    pub fn new<F: Fn(Curve, Single) -> Single + Copy>(sample_rate: Single, f: F) -> (d: StereoDelay)
        requires
            curve::gives_curves(f),
        ensures
            d.fresh(f, sample_rate),
    {
        let quick: Single = glide_coef(of(0x41C8_0000), sample_rate, f);
        let slow: Single = glide_coef(of(0x42F0_0000), sample_rate, f);
        let rate: Single = if of(0).lt(sample_rate) {
            sample_rate
        } else {
            of(0x473B_8000)
        };
        let most: usize = ceil_samples(of(0x4000_0000).times(rate));
        let line_l: DelayLine = DelayLine::new(most);
        let line_r: DelayLine = DelayLine::new(most);
        proof {
            line::lemma_same_length(line_l, line_r, most as int);
        }
        StereoDelay {
            sample_rate: rate,
            line_l,
            line_r,
            dark_l: of(0),
            dark_r: of(0),
            mix: Smoothed::new(of(0), quick),
            feedback: Smoothed::new(of(0x3EB3_3333), quick),
            damping: Smoothed::new(of(0x3E99_999A), quick),
            time: Smoothed::new(of(0x3EC0_0000).times(rate), slow),
            bypassed: false,
        }
    }

    /// Empties the lines. Also on the way into bypass: turning the mix back up must start
    /// clean, not surface repeats from minutes ago.
    fn clear(&mut self)
        requires
            old(self).wf(),
        ensures
            final(self).wf(),
            final(self)@ == old(self)@.cleared(),
            final(self).sample_rate == old(self).sample_rate,
            final(self).same_controls(*old(self)),
            final(self).bypassed == old(self).bypassed,
    {
        self.line_l.clear();
        self.line_r.clear();
        self.dark_l = of(0);
        self.dark_r = of(0);
    }

    fn set_targets(&mut self, p: &Params, tempo_bpm: Single)
        requires
            old(self).wf(),
        ensures
            final(self).wf(),
            final(self)@ == old(self)@,
            final(self).sample_rate == old(self).sample_rate,
            final(self).aimed(*old(self), *p, tempo_bpm),
            final(self).bypassed == old(self).bypassed,
    {
        let seconds: Single = if p.delay_sync {
            p.delay_division.seconds(tempo_bpm)
        } else {
            p.delay_time
        };
        let last: usize = self.line_l.capacity() - 1;
        let top: Single = Single::from_whole(last as u64);
        let time: Single = seconds.clamp(of(0x3A83_126F), of(0x4000_0000)).times(
            self.sample_rate,
        ).clamp(of(0), top);
        self.mix.set_target(p.delay_mix);
        self.feedback.set_target(p.delay_feedback);
        self.damping.set_target(p.delay_damping);
        self.time.set_target(time);
    }

    /// Empties the lines and jumps every control to a patch.
    pub fn snap(&mut self, p: &Params, tempo_bpm: Single)
        requires
            old(self).wf(),
        ensures
            final(self).snapped(*old(self), *p, tempo_bpm),
    {
        self.clear();
        self.bypassed = false;
        self.set_targets(p, tempo_bpm);
        self.mix.snap_to_target();
        self.feedback.snap_to_target();
        self.damping.snap_to_target();
        self.time.snap_to_target();
    }

    /// Processes a chunk in place, moving the controls once.
    ///
    /// Fully off, it skips the work rather than multiplying by zero: that is what makes a
    /// dry patch identical to the bit.
    pub fn process_chunk(
        &mut self,
        left: &mut Vec<Single>,
        right: &mut Vec<Single>,
        p: &Params,
        tempo_bpm: Single,
    )
        requires
            old(self).wf(),
        ensures
            final(self).wf(),
            final(left)@.len() == old(left)@.len(),
            final(right)@.len() == old(right)@.len(),
            final(self).passed(
                *old(self),
                (old(left)@, old(right)@),
                (final(left)@, final(right)@),
                *p,
                tempo_bpm,
            ),
    {
        let count: usize = if left.len() < right.len() {
            left.len()
        } else {
            right.len()
        };
        self.process_span(left, right, 0, count, p, tempo_bpm);
        proof {
            let (dry, out) = ((old(left)@, old(right)@), (left@, right@));
            lemma_the_rest_is_left_alone(*old(self), *self, dry, out, *p, tempo_bpm);
        }
    }

    /// Processes a stretch of two channels as a chunk.
    pub fn process_span(
        &mut self,
        left: &mut Vec<Single>,
        right: &mut Vec<Single>,
        from: usize,
        count: usize,
        p: &Params,
        tempo_bpm: Single,
    )
        requires
            old(self).wf(),
            from + count <= old(left)@.len(),
            from + count <= old(right)@.len(),
        ensures
            final(self).wf(),
            line::kept_outside(
                (old(left)@, old(right)@),
                (final(left)@, final(right)@),
                from as int,
                count as int,
            ),
            final(self).passed(
                *old(self),
                line::span((old(left)@, old(right)@), from as int, count as int),
                line::span((final(left)@, final(right)@), from as int, count as int),
                *p,
                tempo_bpm,
            ),
    {
        proof {
            reveal(StereoDelay::passed);
        }
        if p.delay_mix.is_zero() && self.mix.value().is_zero() {
            if !self.bypassed {
                self.clear();
                self.bypassed = true;
            }
            return;
        }
        self.bypassed = false;
        self.set_targets(p, tempo_bpm);
        let mix: Single = self.mix.next();
        let feedback: Single = self.feedback.next();
        let keep: Single = self.damping.next().times(of(0x3F73_3333));
        let place: Single = self.time.next().minus(of(0x3F80_0000));
        let fresh: Single = of(0x3F80_0000).minus(keep);
        let ping_pong: bool = p.delay_ping_pong;
        let ghost set = *self;
        let ghost s = self.setting(*p);
        let ghost (dl, dr) = line::span((left@, right@), from as int, count as int);
        let size: usize = left.len();
        let mut i: usize = 0;
        while i < count
            invariant
                self.wf(),
                self.same_controls(set),
                self.sample_rate == set.sample_rate,
                !self.bypassed,
                set@ == old(self)@,
                s == set.setting(*p),
                feedback == s.feedback,
                fresh == of(0x3F80_0000).difference(s.keep),
                place == s.time.difference(of(0x3F80_0000)),
                ping_pong == s.ping_pong,
                mix == set.mix.value,
                i <= count,
                from + count <= size,
                size == left@.len() == old(left)@.len(),
                from + count <= right@.len() == old(right)@.len(),
                (dl, dr) == line::span((old(left)@, old(right)@), from as int, count as int),
                self@ == set@.after_all(dl, dr, s, i as int),
                forall|k: int|
                    0 <= k < left@.len() && !(from <= k < from + i) ==> #[trigger] left@[k]
                        == old(left)@[k],
                forall|k: int|
                    0 <= k < right@.len() && !(from <= k < from + i) ==> #[trigger] right@[k]
                        == old(right)@[k],
                forall|k: int|
                    from <= k < from + i ==> #[trigger] left@[k] == reverb::blended(
                        dl[k - from],
                        set@.after_all(dl, dr, s, k - from + 1).left.dark,
                        mix,
                    ),
                forall|k: int|
                    from <= k < from + i ==> #[trigger] right@[k] == reverb::blended(
                        dr[k - from],
                        set@.after_all(dl, dr, s, k - from + 1).right.dark,
                        mix,
                    ),
            decreases count - i,
        {
            let ghost before = self@;
            let j: usize = from + i;
            let dry_l: Single = left[j];
            let dry_r: Single = right[j];
            assert(dl[i as int] == dry_l && dr[i as int] == dry_r);
            let wet_l: Single = self.dark_l.plus(
                fresh.times(self.line_l.read_frac(place).minus(self.dark_l)),
            );
            let wet_r: Single = self.dark_r.plus(
                fresh.times(self.line_r.read_frac(place).minus(self.dark_r)),
            );
            if ping_pong {
                self.line_l.write(
                    dry_l.plus(dry_r).times(of(0x3F00_0000)).plus(wet_r.times(feedback)),
                );
                self.line_r.write(wet_l.times(feedback));
            } else {
                self.line_l.write(dry_l.plus(wet_l.times(feedback)));
                self.line_r.write(dry_r.plus(wet_r.times(feedback)));
            }
            self.dark_l = wet_l;
            self.dark_r = wet_r;
            assert(self@ =~= before.after((dry_l, dry_r), s));
            left.set(j, dry_l.plus(wet_l.minus(dry_l).times(mix)));
            right.set(j, dry_r.plus(wet_r.minus(dry_r).times(mix)));
            i = i + 1;
        }
    }
}

/// What the lines do with the first samples does not depend on the later ones.
proof fn lemma_only_the_first_samples(
    e: Echoes,
    one: (Seq<Single>, Seq<Single>),
    other: (Seq<Single>, Seq<Single>),
    s: EchoSetting,
    n: int,
)
    requires
        forall|k: int| 0 <= k < n ==> #[trigger] one.0[k] == other.0[k],
        forall|k: int| 0 <= k < n ==> #[trigger] one.1[k] == other.1[k],
    ensures
        e.after_all(one.0, one.1, s, n) == e.after_all(other.0, other.1, s, n),
    decreases n,
{
    if n > 0 {
        lemma_only_the_first_samples(e, one, other, s, n - 1);
        assert(one.0[n - 1] == other.0[n - 1] && one.1[n - 1] == other.1[n - 1]);
    }
}

/// A chunk of the frames that both channels have is a chunk of the channels, with the rest
/// left alone.
proof fn lemma_the_rest_is_left_alone(
    before: StereoDelay,
    after: StereoDelay,
    dry: (Seq<Single>, Seq<Single>),
    out: (Seq<Single>, Seq<Single>),
    p: Params,
    tempo_bpm: Single,
)
    requires
        ({
            let n = line::frames(dry) as int;
            &&& line::kept_outside(dry, out, 0, n)
            &&& after.passed(before, line::span(dry, 0, n), line::span(out, 0, n), p, tempo_bpm)
        }),
    ensures
        after.passed(before, dry, out, p, tempo_bpm),
{
    reveal(StereoDelay::passed);
    let n = line::frames(dry) as int;
    let (first, heard) = (line::span(dry, 0, n), line::span(out, 0, n));
    if before.off(p) {
        assert forall|k: int| 0 <= k < dry.0.len() implies out.0[k] == dry.0[k] by {
            if k < n {
                assert(heard.0[k] == first.0[k]);
            }
        }
        assert forall|k: int| 0 <= k < dry.1.len() implies out.1[k] == dry.1[k] by {
            if k < n {
                assert(heard.1[k] == first.1[k]);
            }
        }
        assert(out.0 =~= dry.0 && out.1 =~= dry.1);
    } else {
        let s = after.setting(p);
        lemma_only_the_first_samples(before@, dry, first, s, n);
        assert forall|k: int| 0 <= k < dry.0.len() implies #[trigger] out.0[k] == (if k < n {
            reverb::blended(
                dry.0[k],
                before@.after_all(dry.0, dry.1, s, k + 1).left.dark,
                after.mix.value,
            )
        } else {
            dry.0[k]
        }) by {
            if k < n {
                lemma_only_the_first_samples(before@, dry, first, s, k + 1);
                assert(heard.0[k] == out.0[k] && first.0[k] == dry.0[k]);
            }
        }
        assert forall|k: int| 0 <= k < dry.1.len() implies #[trigger] out.1[k] == (if k < n {
            reverb::blended(
                dry.1[k],
                before@.after_all(dry.0, dry.1, s, k + 1).right.dark,
                after.mix.value,
            )
        } else {
            dry.1[k]
        }) by {
            if k < n {
                lemma_only_the_first_samples(before@, dry, first, s, k + 1);
                assert(heard.1[k] == out.1[k] && first.1[k] == dry.1[k]);
            }
        }
    }
}

/// A centred signal stays centred while the lines are not crossed: the same in both
/// channels and both lines gives the same in both.
pub proof fn law_a_centred_signal_stays_centred(
    e: Echoes,
    signal: Seq<Single>,
    s: EchoSetting,
    n: int,
)
    requires
        e.left == e.right,
        !s.ping_pong,
        0 <= n <= signal.len(),
    ensures
        e.after_all(signal, signal, s, n).left == e.after_all(signal, signal, s, n).right,
    decreases n,
{
    if n > 0 {
        law_a_centred_signal_stays_centred(e, signal, s, n - 1);
    }
}

/// Crossed, the right line hears nothing but the left line: what goes in on either side
/// first comes back on the left.
pub proof fn law_a_crossed_delay_starts_on_the_left(
    e: Echoes,
    one: (Single, Single),
    other: (Single, Single),
    s: EchoSetting,
)
    requires
        s.ping_pong,
    ensures
        e.after(one, s).right == e.after(other, s).right,
{
}

/// A cleared delay has nothing left to say at any place.
pub proof fn law_a_cleared_delay_is_silent(e: Echoes, offset: int)
    requires
        e.left.line.len() > 0,
        e.right.line.len() > 0,
        0 <= offset,
    ensures
        line::ago(e.cleared().left.line, offset) == of(0),
        line::ago(e.cleared().right.line, offset) == of(0),
        e.cleared().cleared() == e.cleared(),
{
}

} // verus!
