//! Step sequencer with a generative pattern writer.
//!
//! Constraining pitches to a scale removes the wrong notes, but a uniform
//! random walk over a scale still sounds like a random walk. Three further
//! constraints do most of the work of making it sound composed: nearby degrees
//! are favoured over distant ones, strong beats favour chord tones, and rests
//! leave gaps between phrases.
//!
//! The generator writes a whole pattern and then loops it: repetition is what
//! lets a listener recognise a figure.

use crate::bounds;
use crate::clock::{Advance, ClockView};
use crate::params::{of, Params};
use crate::rng;
use crate::rng::Rng;
use crate::scale;
use crate::scale::{Scale, ScaleQuantizer};
use crate::single;
use crate::single::Single;
use vstd::prelude::*;

verus! {

/// Maximum pattern length.
pub const MAX_STEPS: usize = 64;

/// One step of the pattern.
#[derive(Debug, Clone, Copy, PartialEq, Eq, Structural)]
pub struct Step {
    /// False means a rest.
    pub active: bool,
    pub note: u8,
    pub velocity: Single,
    /// Marks a step the generator treated as a downbeat. Useful for driving
    /// visuals in time with the music.
    pub accent: bool,
    /// Whether the pitch glides into this step instead of striking it afresh.
    pub slide: bool,
}

impl Step {
    /// A step nobody has written: a rest on middle C, at a velocity of 0.8.
    pub open spec fn blank() -> Step {
        Step {
            active: false,
            note: 60,
            velocity: Single { bits: 0x3F4C_CCCD },
            accent: false,
            slide: false,
        }
    }
}

impl Default for Step {
    fn default() -> (s: Step)
        ensures
            s == Step::blank(),
    {
        Step {
            active: false,
            note: 60,
            velocity: Single { bits: 0x3F4C_CCCD },
            accent: false,
            slide: false,
        }
    }
}

/// A whole pattern, as a plain value.
///
/// Handed out by copy rather than by reference: the real pattern lives on the
/// audio thread, and lending a reference to it would need a lock.
#[derive(Debug, Clone, Copy)]
pub struct Pattern {
    pub steps: [Step; MAX_STEPS],
    pub len: usize,
}

impl View for Pattern {
    type V = Seq<Step>;

    /// The steps inside the length.
    open spec fn view(&self) -> Seq<Step> {
        self.steps@.subrange(0, self.len as int)
    }
}

impl Pattern {
    /// A pattern is never longer than its storage.
    pub open spec fn wf(self) -> bool {
        self.len <= MAX_STEPS
    }

    pub fn new(steps: [Step; MAX_STEPS], len: usize) -> (p: Pattern)
        ensures
            p.wf(),
            p.steps == steps,
            p.len == (if len <= MAX_STEPS {
                len
            } else {
                MAX_STEPS
            }),
    {
        Pattern {
            steps,
            len: if len <= MAX_STEPS {
                len
            } else {
                MAX_STEPS
            },
        }
    }

    pub fn len(&self) -> (n: usize)
        ensures
            n == self.len,
    {
        self.len
    }

    pub fn is_empty(&self) -> (yes: bool)
        ensures
            yes == (self.len == 0),
    {
        self.len == 0
    }

    /// The steps inside the length.
    pub fn as_slice(&self) -> (s: &[Step])
        requires
            self.wf(),
        ensures
            s@ == self@,
    {
        vstd::slice::slice_subrange(self.steps.as_slice(), 0, self.len)
    }
}

impl Default for Pattern {
    fn default() -> (p: Pattern)
        ensures
            p.wf(),
            p.len == 0,
            forall|i: int| 0 <= i < MAX_STEPS ==> #[trigger] p.steps[i] == Step::blank(),
    {
        let blank: Step = Step::default();
        Pattern { steps: [blank; MAX_STEPS], len: 0 }
    }
}

/// What a sequencer needs of the parameters to play.
#[derive(Debug, Clone, Copy, PartialEq, Eq, Structural)]
pub struct SeqSettings {
    pub length: usize,
    /// Note length as a fraction of one step.
    pub gate: Single,
    /// Delay of every other step, as a fraction of a step.
    pub swing: Single,
}

impl SeqSettings {
    /// The settings of the melody.
    pub open spec fn of_melody(p: Params) -> SeqSettings {
        SeqSettings { length: p.seq_length, gate: p.seq_gate, swing: p.seq_swing }
    }

    /// The settings of the bass line: its own length, the melody's feel.
    pub open spec fn of_bass(p: Params) -> SeqSettings {
        SeqSettings { length: p.bass_seq_length, gate: p.seq_gate, swing: p.seq_swing }
    }

    pub fn from_params(p: &Params) -> (s: SeqSettings)
        ensures
            s == SeqSettings::of_melody(*p),
    {
        SeqSettings { length: p.seq_length, gate: p.seq_gate, swing: p.seq_swing }
    }

    pub fn for_bass(p: &Params) -> (s: SeqSettings)
        ensures
            s == SeqSettings::of_bass(*p),
    {
        SeqSettings { length: p.bass_seq_length, gate: p.seq_gate, swing: p.seq_swing }
    }

    /// The requested length, held to what a pattern can have.
    pub open spec fn requested(self) -> int {
        if self.length < 1 {
            1
        } else if self.length > MAX_STEPS {
            MAX_STEPS as int
        } else {
            self.length as int
        }
    }
}

/// What the sequencer wants the voice allocator to do this block.
///
/// At most one of each: a block is under a millisecond, and two steps cannot
/// fall inside one at any sane tempo.
#[derive(Debug, Clone, Copy, PartialEq, Eq)]
pub struct SeqOutput {
    pub note_on: Option<(u8, Single)>,
    pub note_off: Option<u8>,
    /// True on the block where the sequencer moved to a new step, whether or
    /// not that step sounded. Good for syncing animation.
    pub stepped: bool,
    /// Whether the note that starts is accented.
    pub accent: bool,
    /// Whether the note that starts is tied to the one before it.
    pub slide: bool,
}

impl SeqOutput {
    /// Nothing to do.
    pub open spec fn nothing() -> SeqOutput {
        SeqOutput { note_on: None, note_off: None, stepped: false, accent: false, slide: false }
    }
}

impl Default for SeqOutput {
    fn default() -> (o: SeqOutput)
        ensures
            o == SeqOutput::nothing(),
    {
        SeqOutput { note_on: None, note_off: None, stepped: false, accent: false, slide: false }
    }
}

/// A note waiting out its swing delay.
#[derive(Debug, Clone, Copy, PartialEq, Eq, Structural)]
pub struct Pending {
    pub step: Step,
    /// How long it still has to wait, in samples.
    pub samples_remaining: Single,
}

/// The state of a sequencer.
#[verifier::ext_equal]
pub struct SeqModel {
    /// Every step there is room for; those past the length are kept.
    pub pattern: Seq<Step>,
    pub length: int,
    /// The step last played; none before the first.
    pub position: Option<int>,
    /// The generator's register.
    pub rng: u64,
    /// The note currently sounding, if any.
    pub sounding: Option<u8>,
    /// Countdown to releasing it.
    pub samples_until_off: Single,
    pub pending: Option<Pending>,
    /// A loaded pattern waiting for the top of the loop.
    pub queued: Option<Seq<Step>>,
    /// Whether the steps on show have changed unannounced.
    pub pattern_changed: bool,
    /// The length last asked for.
    pub last_length: int,
}

impl SeqModel {
    /// A sequencer nobody has touched: sixteen steps, all rests.
    pub open spec fn blank(seed: u64) -> SeqModel {
        SeqModel {
            pattern: Seq::new(MAX_STEPS as nat, |i: int| Step::blank()),
            length: 16,
            position: None,
            rng: if seed == 0 {
                rng::SPARE_SEED
            } else {
                seed
            },
            sounding: None,
            samples_until_off: of(0),
            pending: None,
            queued: None,
            pattern_changed: false,
            last_length: 16,
        }
    }

    /// The place in the loop once its length has changed: back to the top if it
    /// now lies outside.
    pub open spec fn place_in(self, length: int) -> Option<int> {
        match self.position {
            Some(p) => if p >= length {
                Some(0)
            } else {
                Some(p)
            },
            None => None,
        }
    }

    /// A loaded pattern adopted, length and all: half a melody looping is not
    /// the melody. An empty one still leaves a step to play.
    pub open spec fn loaded(self, p: Seq<Step>) -> SeqModel {
        let length = if p.len() < 1 {
            1
        } else {
            p.len() as int
        };
        SeqModel {
            pattern: p + self.pattern.skip(p.len() as int),
            length,
            position: self.place_in(length),
            pattern_changed: true,
            ..self
        }
    }

    /// The waiting pattern, if any, adopted.
    pub open spec fn landed(self) -> SeqModel {
        match self.queued {
            Some(p) => (SeqModel { queued: None, ..self }).loaded(p),
            None => self,
        }
    }

    /// One step overwritten; there is none past the last there is room for.
    pub open spec fn with_step(self, index: int, step: Step) -> SeqModel {
        SeqModel {
            pattern: if index < MAX_STEPS {
                self.pattern.update(index, step)
            } else {
                self.pattern
            },
            ..self
        }
    }

    /// The length knob followed, but only when it has moved: comparing against
    /// the present length would fight a loaded pattern.
    pub open spec fn resized(self, requested: int) -> SeqModel {
        if requested == self.last_length {
            self
        } else {
            SeqModel {
                last_length: requested,
                length: requested,
                position: self.place_in(requested),
                pattern_changed: true,
                ..self
            }
        }
    }

    /// A note started, whatever was sounding released first, so that the voice
    /// allocator sees a clean note-off before the note-on.
    pub open spec fn triggered(
        self,
        step: Step,
        s: SeqSettings,
        clock: ClockView,
        out: SeqOutput,
    ) -> (SeqModel, SeqOutput) {
        (
            SeqModel {
                sounding: Some(step.note),
                samples_until_off: s.gate.product(clock.samples_per_step),
                ..self
            },
            SeqOutput {
                note_on: Some((step.note, step.velocity)),
                note_off: if self.sounding is Some {
                    self.sounding
                } else {
                    out.note_off
                },
                stepped: out.stepped,
                accent: step.accent,
                slide: step.slide,
            },
        )
    }

    /// The step that comes next.
    pub open spec fn next_position(self) -> int {
        match self.position {
            Some(p) => (p + 1) % self.length,
            None => 0,
        }
    }

    /// How long a step is held back: every second one, by the swing.
    pub open spec fn swing_delay(position: int, s: SeqSettings, clock: ClockView) -> Single {
        if position % 2 == 1 && of(0).below(s.swing) {
            s.swing.product(clock.samples_per_step)
        } else {
            of(0)
        }
    }

    /// The next step reached and played. A waiting pattern lands at the top of
    /// the loop, before the step is read, so that it is heard from its own first
    /// note.
    pub open spec fn stepped(self, s: SeqSettings, clock: ClockView, out: SeqOutput) -> (
        SeqModel,
        SeqOutput,
    ) {
        let next = self.next_position();
        let ready = if next == 0 {
            self.landed()
        } else {
            self
        };
        let here = SeqModel { position: Some(next), ..ready };
        let moved = SeqOutput { stepped: true, ..out };
        let step = here.pattern[next];
        let delay = SeqModel::swing_delay(next, s, clock);
        if !step.active {
            (here, moved)
        } else if of(0).below(delay) {
            (
                SeqModel { pending: Some(Pending { step, samples_remaining: delay }), ..here },
                moved,
            )
        } else {
            here.triggered(step, s, clock, moved)
        }
    }

    /// Several steps in a row.
    pub open spec fn stepped_by(
        self,
        n: nat,
        s: SeqSettings,
        clock: ClockView,
        out: SeqOutput,
    ) -> (SeqModel, SeqOutput)
        decreases n,
    {
        if n == 0 {
            (self, out)
        } else {
            let (m, o) = self.stepped_by((n - 1) as nat, s, clock, out);
            m.stepped(s, clock, o)
        }
    }

    /// The sounding note released if its gate runs out within some samples.
    pub open spec fn gated(self, samples: Single, out: SeqOutput) -> (SeqModel, SeqOutput) {
        match self.sounding {
            None => (self, out),
            Some(note) => {
                let left = self.samples_until_off.difference(samples);
                let counted = SeqModel { samples_until_off: left, ..self };
                if left.at_most(of(0)) {
                    (
                        SeqModel { sounding: None, ..counted },
                        SeqOutput { note_off: Some(note), ..out },
                    )
                } else {
                    (counted, out)
                }
            },
        }
    }

    /// The waiting note started if its delay runs out within some samples.
    pub open spec fn swung(
        self,
        samples: Single,
        s: SeqSettings,
        clock: ClockView,
        out: SeqOutput,
    ) -> (SeqModel, SeqOutput) {
        match self.pending {
            None => (self, out),
            Some(p) => {
                let left = p.samples_remaining.difference(samples);
                if left.at_most(of(0)) {
                    (SeqModel { pending: None, ..self }).triggered(p.step, s, clock, out)
                } else {
                    (
                        SeqModel { pending: Some(Pending { samples_remaining: left, ..p }), ..self },
                        out,
                    )
                }
            },
        }
    }

    /// A block of samples played. Stopped, there is no bar line to wait for, so
    /// a waiting pattern lands at once.
    pub open spec fn advanced(
        self,
        samples: int,
        adv: Advance,
        clock: ClockView,
        s: SeqSettings,
    ) -> (SeqModel, SeqOutput) {
        let sized = self.resized(s.requested());
        let ready = if clock.running {
            sized
        } else {
            sized.landed()
        };
        let n = Single::nearest_to(samples);
        let (a, x) = ready.gated(n, SeqOutput::nothing());
        let (b, y) = a.swung(n, s, clock, x);
        b.stepped_by(adv.steps as nat, s, clock, y)
    }

    /// Whether the state is one a sequencer can be in.
    pub open spec fn wf(self) -> bool {
        &&& self.pattern.len() == MAX_STEPS
        &&& 1 <= self.length <= MAX_STEPS
        &&& self.position matches Some(p) ==> 0 <= p < MAX_STEPS
        &&& self.queued matches Some(p) ==> p.len() <= MAX_STEPS
        &&& self.rng != 0
    }
}

/// The sequencer.
#[derive(Debug)]
pub struct Sequencer {
    pub pattern: [Step; MAX_STEPS],
    pub length: usize,
    pub position: Option<usize>,
    pub rng: Rng,
    /// The note currently sounding from the sequencer, if any.
    pub sounding: Option<u8>,
    /// Countdown to releasing it, in samples.
    pub samples_until_off: Single,
    pub pending: Option<Pending>,
    /// A pattern the control side has loaded, waiting for the top of the loop.
    pub queued: Option<Pattern>,
    /// Set when the steps on show change, so the caller knows to republish.
    pub pattern_changed: bool,
    /// The requested length from the previous block.
    pub last_length_param: usize,
    /// Where the generator weighs its moves.
    pub weighing: Weighing,
}

/// The lists that the generator weighs its moves with, kept for reuse.
#[derive(Debug)]
pub struct Weighing {
    pub pulls: Vec<Single>,
    pub weights: Vec<Single>,
}

impl View for Sequencer {
    type V = SeqModel;

    open spec fn view(&self) -> SeqModel {
        SeqModel {
            pattern: self.pattern@,
            length: self.length as int,
            position: match self.position {
                Some(p) => Some(p as int),
                None => None,
            },
            rng: self.rng.state(),
            sounding: self.sounding,
            samples_until_off: self.samples_until_off,
            pending: self.pending,
            queued: match self.queued {
                Some(p) => Some(p@),
                None => None,
            },
            pattern_changed: self.pattern_changed,
            last_length: self.last_length_param as int,
        }
    }
}

impl Sequencer {
    pub open spec fn wf(self) -> bool {
        &&& self@.wf()
        &&& self.queued matches Some(p) ==> p.wf()
    }

    pub fn new(seed: u64) -> (s: Sequencer)
        ensures
            s.wf(),
            s@ == SeqModel::blank(seed),
    {
        let blank: Step = Step::default();
        let s: Sequencer = Sequencer {
            pattern: [blank; MAX_STEPS],
            length: 16,
            // Start before step 0 so the first advance lands on it.
            position: None,
            rng: Rng::new(seed),
            sounding: None,
            samples_until_off: of(0),
            pending: None,
            queued: None,
            pattern_changed: false,
            last_length_param: 16,
            weighing: Weighing { pulls: Vec::with_capacity(12), weights: Vec::with_capacity(32) },
        };
        assert(s@ =~= SeqModel::blank(seed));
        s
    }

    /// The step index currently playing.
    pub fn position(&self) -> (p: usize)
        ensures
            p == (match self@.position {
                Some(p) => p,
                None => 0,
            }),
    {
        match self.position {
            Some(p) => p,
            None => 0,
        }
    }

    /// The steps inside the length.
    pub fn pattern(&self) -> (s: &[Step])
        requires
            self.wf(),
        ensures
            s@ == self@.pattern.take(self@.length),
    {
        vstd::slice::slice_subrange(self.pattern.as_slice(), 0, self.length)
    }

    /// Overwrites one step; an index outside the pattern changes nothing.
    pub fn set_step(&mut self, index: usize, step: Step)
        requires
            old(self).wf(),
        ensures
            final(self).wf(),
            final(self)@ == old(self)@.with_step(index as int, step),
    {
        if index < MAX_STEPS {
            self.pattern[index] = step;
        }
    }

    pub fn set_seed(&mut self, seed: u64)
        requires
            old(self).wf(),
        ensures
            final(self).wf(),
            final(self)@ == (SeqModel {
                rng: if seed == 0 {
                    rng::SPARE_SEED
                } else {
                    seed
                },
                ..old(self)@
            }),
    {
        self.rng = Rng::new(seed);
    }

    /// Rewinds to the start of the pattern.
    pub fn rewind(&mut self)
        requires
            old(self).wf(),
        ensures
            final(self).wf(),
            final(self)@ == (SeqModel { position: None, pending: None, ..old(self)@ }),
    {
        self.position = None;
        self.pending = None;
    }

    /// Loads a pattern, to take effect at the top of the next loop, or at once
    /// while the transport is stopped. A later load replaces an earlier one.
    pub fn queue_pattern(&mut self, pattern: Pattern)
        requires
            old(self).wf(),
            pattern.wf(),
        ensures
            final(self).wf(),
            final(self)@ == (SeqModel { queued: Some(pattern@), ..old(self)@ }),
    {
        self.queued = Some(pattern);
    }

    /// Reports, once, that the steps on show have changed.
    pub fn take_pattern_changed(&mut self) -> (changed: bool)
        requires
            old(self).wf(),
        ensures
            final(self).wf(),
            changed == old(self)@.pattern_changed,
            final(self)@ == (SeqModel { pattern_changed: false, ..old(self)@ }),
    {
        let changed: bool = self.pattern_changed;
        self.pattern_changed = false;
        changed
    }

    fn place_in(&mut self, length: usize)
        ensures
            final(self)@ == (SeqModel { position: old(self)@.place_in(length as int), ..old(self)@ }),
            final(self).queued == old(self).queued,
    {
        match self.position {
            Some(p) => {
                if p >= length {
                    self.position = Some(0);
                }
            },
            None => {},
        }
    }

    /// Adopts a loaded pattern, length and all.
    fn apply_pattern(&mut self, pattern: &Pattern)
        requires
            old(self).wf(),
            pattern.wf(),
        ensures
            final(self).wf(),
            final(self)@ == old(self)@.loaded(pattern@),
    {
        let mut i: usize = 0;
        while i < pattern.len
            invariant
                pattern.wf(),
                old(self).wf(),
                i <= pattern.len,
                self.pattern@ == pattern@.take(i as int) + old(self).pattern@.skip(i as int),
                self@ == (SeqModel { pattern: self.pattern@, ..old(self)@ }),
                self.queued == old(self).queued,
            decreases pattern.len - i,
        {
            self.pattern[i] = pattern.steps[i];
            i = i + 1;
            assert(self.pattern@ =~= pattern@.take(i as int) + old(self).pattern@.skip(i as int));
        }
        assert(pattern@.take(i as int) =~= pattern@);
        self.length = if pattern.len < 1 {
            1
        } else {
            pattern.len
        };
        self.place_in(self.length);
        self.pattern_changed = true;
        assert(self.pattern@ =~= pattern@ + old(self).pattern@.skip(pattern@.len() as int));
    }

    /// Adopts the waiting pattern, if there is one.
    fn land(&mut self)
        requires
            old(self).wf(),
        ensures
            final(self).wf(),
            final(self)@ == old(self)@.landed(),
    {
        match self.queued.take() {
            Some(pattern) => self.apply_pattern(&pattern),
            None => {},
        }
    }

    /// Advances by a block of samples.
    ///
    /// `samples` cannot be inferred from `adv`: the note-off and swing countdowns
    /// are measured in samples, and a block that crosses no step boundary still
    /// has to tick them down.
    pub fn advance(
        &mut self,
        samples: usize,
        adv: Advance,
        clock: ClockView,
        p: &SeqSettings,
    ) -> (out: SeqOutput)
        requires
            old(self).wf(),
        ensures
            final(self).wf(),
            (final(self)@, out) == old(self)@.advanced(samples as int, adv, clock, *p),
    {
        let mut out: SeqOutput = SeqOutput::default();
        let requested: usize = if p.length < 1 {
            1
        } else if p.length > MAX_STEPS {
            MAX_STEPS
        } else {
            p.length
        };
        if requested != self.last_length_param {
            self.last_length_param = requested;
            self.length = requested;
            self.place_in(requested);
            self.pattern_changed = true;
        }
        assert(self@ == old(self)@.resized(p.requested()));
        if !clock.running {
            self.land();
        }
        let ghost ready = self@;
        let n: Single = Single::from_whole(samples as u64);
        match self.sounding {
            Some(note) => {
                self.samples_until_off = self.samples_until_off.minus(n);
                if self.samples_until_off.le(of(0)) {
                    out.note_off = Some(note);
                    self.sounding = None;
                }
            },
            None => {},
        }
        assert((self@, out) == ready.gated(n, SeqOutput::nothing()));
        let ghost (b, y) = (self@, out);
        match self.pending {
            Some(pending) => {
                let left: Single = pending.samples_remaining.minus(n);
                if left.le(of(0)) {
                    self.pending = None;
                    self.trigger(pending.step, p, clock, &mut out);
                } else {
                    self.pending = Some(Pending { step: pending.step, samples_remaining: left });
                }
            },
            None => {},
        }
        assert((self@, out) == b.swung(n, *p, clock, y));
        let ghost (c, z) = (self@, out);
        let mut k: u32 = 0;
        while k < adv.steps
            invariant
                self.wf(),
                k <= adv.steps,
                (self@, out) == c.stepped_by(k as nat, *p, clock, z),
            decreases adv.steps - k,
        {
            self.step(p, clock, &mut out);
            k = k + 1;
        }
        out
    }

    /// Called by the engine when an external MIDI clock tick arrives.
    ///
    /// Whether the tick lands on a step is the engine's decision, since it owns
    /// the clock, so the answer arrives as an argument.
    pub fn on_midi_tick(&mut self, ticked: bool, clock: ClockView, p: &SeqSettings) -> (out:
        SeqOutput)
        requires
            old(self).wf(),
        ensures
            final(self).wf(),
            !ticked ==> final(self)@ == old(self)@ && out == SeqOutput::nothing(),
            ticked ==> (final(self)@, out) == old(self)@.stepped(*p, clock, SeqOutput::nothing()),
    {
        let mut out: SeqOutput = SeqOutput::default();
        if ticked {
            self.step(p, clock, &mut out);
        }
        out
    }

    /// Moves to the next step and triggers whatever is there.
    fn step(&mut self, p: &SeqSettings, clock: ClockView, out: &mut SeqOutput)
        requires
            old(self).wf(),
        ensures
            final(self).wf(),
            (final(self)@, *final(out)) == old(self)@.stepped(*p, clock, *old(out)),
    {
        let next: usize = match self.position {
            Some(q) => (q + 1) % self.length,
            None => 0,
        };
        if next == 0 {
            self.land();
        }
        self.position = Some(next);
        out.stepped = true;
        let step: Step = self.pattern[next];
        if !step.active {
            return ;
        }
        // Swing delays every second step. It is what separates a groove from a
        // metronome, and a little goes a long way.
        let delay: Single = if next % 2 == 1 && of(0).lt(p.swing) {
            p.swing.times(clock.samples_per_step)
        } else {
            of(0)
        };
        if of(0).lt(delay) {
            self.pending = Some(Pending { step, samples_remaining: delay });
        } else {
            self.trigger(step, p, clock, out);
        }
    }

    fn trigger(&mut self, step: Step, p: &SeqSettings, clock: ClockView, out: &mut SeqOutput)
        requires
            old(self).wf(),
        ensures
            final(self).wf(),
            (final(self)@, *final(out)) == old(self)@.triggered(step, *p, clock, *old(out)),
    {
        match self.sounding {
            Some(previous) => {
                out.note_off = Some(previous);
            },
            None => {},
        }
        out.note_on = Some((step.note, step.velocity));
        out.accent = step.accent;
        out.slide = step.slide;
        self.sounding = Some(step.note);
        self.samples_until_off = p.gate.times(clock.samples_per_step);
    }

    /// Releases anything the sequencer is holding. Call when the transport
    /// stops, or a note hangs forever.
    pub fn release_all(&mut self) -> (note: Option<u8>)
        requires
            old(self).wf(),
        ensures
            final(self).wf(),
            note == old(self)@.sounding,
            final(self)@ == (SeqModel { pending: None, sounding: None, ..old(self)@ }),
    {
        self.pending = None;
        self.sounding.take()
    }
}

/// The knobs the pattern generator reads.
#[derive(Debug, Clone, Copy, PartialEq, Eq, Structural)]
pub struct GenerativeSettings {
    pub root: u8,
    pub scale: Scale,
    pub octave: i32,
    pub range: u32,
    pub density: Single,
    pub max_jump: Single,
    pub chord_bias: Single,
    pub length: usize,
}

impl GenerativeSettings {
    /// The generator settings of the melody.
    pub open spec fn of_melody(p: Params) -> GenerativeSettings {
        GenerativeSettings {
            root: p.gen_root,
            scale: p.gen_scale,
            octave: p.gen_octave,
            range: p.gen_range,
            density: p.gen_density,
            max_jump: p.gen_max_jump,
            chord_bias: p.gen_chord_bias,
            length: p.seq_length,
        }
    }

    /// The generator settings of the bass line: its own octave, range, density
    /// and leaps, in the melody's key and scale.
    pub open spec fn of_bass(p: Params) -> GenerativeSettings {
        GenerativeSettings {
            root: p.gen_root,
            scale: p.gen_scale,
            octave: p.bass_gen_octave,
            range: p.bass_gen_range,
            density: p.bass_gen_density,
            max_jump: p.bass_gen_max_jump,
            chord_bias: p.bass_gen_chord_bias,
            length: p.bass_seq_length,
        }
    }

    pub fn from_params(p: &Params) -> (g: GenerativeSettings)
        ensures
            g == GenerativeSettings::of_melody(*p),
    {
        GenerativeSettings {
            root: p.gen_root,
            scale: p.gen_scale,
            octave: p.gen_octave,
            range: p.gen_range,
            density: p.gen_density,
            max_jump: p.gen_max_jump,
            chord_bias: p.gen_chord_bias,
            length: p.seq_length,
        }
    }

    pub fn for_bass(p: &Params) -> (g: GenerativeSettings)
        ensures
            g == GenerativeSettings::of_bass(*p),
    {
        GenerativeSettings {
            root: p.gen_root,
            scale: p.gen_scale,
            octave: p.bass_gen_octave,
            range: p.bass_gen_range,
            density: p.bass_gen_density,
            max_jump: p.bass_gen_max_jump,
            chord_bias: p.bass_gen_chord_bias,
            length: p.bass_seq_length,
        }
    }

    /// The length of the pattern to write.
    pub open spec fn steps(self) -> int {
        if self.length < 1 {
            1
        } else if self.length > MAX_STEPS {
            MAX_STEPS as int
        } else {
            self.length as int
        }
    }

    pub open spec fn quantizer(self) -> ScaleQuantizer {
        ScaleQuantizer { root: self.root % 12, scale: self.scale }
    }

    /// Whether every degree of the range can be counted.
    pub open spec fn fits(self) -> bool {
        self.scale.offsets().len() * self.range <= 0x7FFF_FFFF
    }

    /// The highest degree the line may reach: one below the top of its last
    /// octave.
    pub open spec fn max_degree(self) -> int {
        let top = self.scale.offsets().len() * self.range - 1;
        if top < 0 {
            0
        } else {
            top
        }
    }

    /// The longest leap, in degrees: the setting rounded to a whole number
    /// between 1 and 12.
    pub open spec fn jump(self) -> int {
        if self.max_jump.nan() {
            0
        } else {
            longest_leap(self.max_jump, 12)
        }
    }

    /// The lowest degree within reach.
    pub open spec fn lowest(self, degree: int) -> int {
        if degree - self.jump() < 0 {
            0
        } else {
            degree - self.jump()
        }
    }

    /// How many degrees are within reach.
    pub open spec fn reachable(self, degree: int) -> int {
        let high = if degree + self.jump() > self.max_degree() {
            self.max_degree()
        } else {
            degree + self.jump()
        };
        high - self.lowest(degree) + 1
    }

    /// The weight of moving from one degree to another: the pull of the beat,
    /// less the further the leap, and less for staying put.
    pub open spec fn move_weight(self, strong: bool, from: int, to: int) -> Single {
        let distance = Single::nearest_to(
            if to < from {
                from - to
            } else {
                to - from
            },
        );
        let proximity = of(0x3F80_0000).quotient(
            of(0x3F80_0000).sum(distance.product(of(0x3F19_999A))),
        );
        let repetition = if to == from {
            of(0x3EB3_3333)
        } else {
            of(0x3F80_0000)
        };
        self.quantizer().degree_weight(
            self.chord_bias,
            strong,
            to % self.scale.offsets().len() as int,
        ).product(proximity).product(repetition)
    }

    /// The weights of every degree within reach.
    pub open spec fn move_weights(self, strong: bool, from: int) -> Seq<Single> {
        Seq::new(
            self.reachable(from) as nat,
            |k: int| self.move_weight(strong, from, self.lowest(from) + k),
        )
    }
}

/// Whole numbers of degrees, less a half, by their patterns.
pub open spec fn half_below(n: int) -> Single {
    Single { bits: single::ratio_bits((2 * n - 1) as nat, 2) as u32 }
}

/// The largest whole number from 1 to `n` that a setting rounds up to.
pub open spec fn longest_leap(x: Single, n: int) -> int
    decreases n,
{
    if n <= 1 {
        1
    } else if half_below(n).at_most(x) {
        n
    } else {
        longest_leap(x, n - 1)
    }
}

/// A generator in the middle of writing a pattern.
pub struct Walk {
    /// The degree last written.
    pub degree: int,
    /// The generator's register.
    pub rng: u64,
}

impl Walk {
    /// The word of the next draw.
    pub open spec fn word(self) -> u64 {
        rng::scrambled(rng::shifted(self.rng))
    }

    /// The register after the next draw.
    pub open spec fn drawn(self) -> Walk {
        Walk { rng: rng::shifted(self.rng), ..self }
    }

    /// The walk after the draw that decides whether step `i` sounds; the first
    /// step always does.
    pub open spec fn decided(self, i: int) -> Walk {
        if i == 0 {
            self
        } else {
            self.drawn()
        }
    }

    /// Whether step `i` sounds.
    pub open spec fn sounds(self, g: GenerativeSettings, i: int) -> bool {
        i == 0 || rng::unit_draw(self.word()).below(g.density)
    }

    /// The walk after the draw that moves the line.
    pub open spec fn moved(self, g: GenerativeSettings, strong: bool) -> Walk {
        let weights = g.move_weights(strong, self.degree);
        let sum = rng::total(weights);
        if sum.at_most(of(0)) {
            Walk { degree: g.lowest(self.degree), ..self }
        } else {
            Walk {
                degree: g.lowest(self.degree) + rng::used_up(
                    weights,
                    rng::unit_draw(self.word()).product(sum),
                    0,
                ),
                rng: rng::shifted(self.rng),
            }
        }
    }

    /// The velocity of the next note: downbeats louder than offbeats.
    pub open spec fn velocity(self, strong: bool) -> Single {
        let x = rng::unit_draw(self.word());
        if strong {
            of(0x3F59_999A).sum(x.product(of(0x3E19_999A)))
        } else {
            of(0x3F00_0000).sum(x.product(of(0x3E80_0000)))
        }
    }

    /// The walk once step `i` is written.
    #[verifier::opaque]
    pub open spec fn after(self, g: GenerativeSettings, i: int) -> Walk {
        if self.sounds(g, i) {
            self.decided(i).moved(g, i % 4 == 0).drawn()
        } else {
            self.decided(i)
        }
    }

    /// Step `i` as written. Every fourth step is a downbeat.
    #[verifier::opaque]
    pub open spec fn written(self, g: GenerativeSettings, i: int) -> Step {
        let strong = i % 4 == 0;
        let there = self.decided(i).moved(g, strong);
        if self.sounds(g, i) {
            Step {
                active: true,
                note: scale::folded(g.quantizer().pitch(there.degree, g.octave as int)) as u8,
                velocity: there.velocity(strong),
                accent: strong,
                slide: false,
            }
        } else {
            Step::blank()
        }
    }
}

/// The walk before step `i`. A line starts on the root: that establishes the
/// key at once.
pub open spec fn walk_to(g: GenerativeSettings, rng: u64, i: int) -> Walk
    decreases i,
{
    if i <= 0 {
        Walk { degree: 0, rng }
    } else {
        walk_to(g, rng, i - 1).after(g, i - 1)
    }
}

/// Step `i` of the pattern that a register writes.
pub open spec fn composed(g: GenerativeSettings, rng: u64, i: int) -> Step {
    walk_to(g, rng, i).written(g, i)
}

impl SeqModel {
    /// A fresh pattern written. What lies past its length is kept.
    pub open spec fn regenerated(self, g: GenerativeSettings) -> SeqModel {
        SeqModel {
            pattern: Seq::new(
                MAX_STEPS as nat,
                |i: int|
                    if i < g.steps() {
                        composed(g, self.rng, i)
                    } else {
                        self.pattern[i]
                    },
            ),
            length: g.steps(),
            rng: walk_to(g, self.rng, g.steps()).rng,
            ..self
        }
    }
}

/// A line never leaves the degrees it may reach, however the draws fall.
pub proof fn lemma_walk_in_range(g: GenerativeSettings, rng: u64, i: int)
    requires
        i >= 0,
        rng != 0,
    ensures
        0 <= walk_to(g, rng, i).degree <= g.max_degree(),
        walk_to(g, rng, i).rng != 0,
    decreases i,
{
    if i > 0 {
        let w = walk_to(g, rng, i - 1);
        reveal(Walk::after);
        lemma_walk_in_range(g, rng, i - 1);
        lemma_move_in_range(g, w.decided(i - 1), (i - 1) % 4 == 0);
        rng::lemma_never_zero(w.rng);
        rng::lemma_never_zero(w.decided(i - 1).rng);
        rng::lemma_never_zero(w.decided(i - 1).moved(g, (i - 1) % 4 == 0).rng);
    }
}

proof fn lemma_leap(x: Single, n: int)
    requires
        n >= 1,
    ensures
        1 <= longest_leap(x, n) <= n,
    decreases n,
{
    if n > 1 {
        lemma_leap(x, n - 1);
    }
}

proof fn lemma_reach(g: GenerativeSettings, degree: int)
    requires
        0 <= degree <= g.max_degree(),
    ensures
        0 <= g.jump() <= 12,
        0 <= g.lowest(degree) <= degree,
        1 <= g.reachable(degree) <= 25,
        g.lowest(degree) + g.reachable(degree) - 1 <= g.max_degree(),
{
    lemma_leap(g.max_jump, 12);
}

proof fn lemma_move_in_range(g: GenerativeSettings, w: Walk, strong: bool)
    requires
        0 <= w.degree <= g.max_degree(),
    ensures
        0 <= w.moved(g, strong).degree <= g.max_degree(),
{
    let weights = g.move_weights(strong, w.degree);
    lemma_reach(g, w.degree);
    rng::lemma_used_up(weights, rng::unit_draw(w.word()).product(rng::total(weights)), 0);
}

/// Every note of a generated line is in key, whatever the seed, the scale, the
/// root and the settings.
pub proof fn law_generated_notes_in_key(g: GenerativeSettings, rng: u64, i: int)
    requires
        i >= 0,
        composed(g, rng, i).active,
    ensures
        g.quantizer().in_scale(composed(g, rng, i).note as int),
        composed(g, rng, i).note <= 127,
{
    reveal(Walk::written);
    let there = walk_to(g, rng, i).decided(i).moved(g, i % 4 == 0);
    let pitch = g.quantizer().pitch(there.degree, g.octave as int);
    scale::law_degrees_stay_in_scale(g.quantizer(), there.degree, g.octave as int);
    scale::lemma_folded(pitch);
}

/// A generated line stays within the octaves it was given, wherever those lie
/// inside the MIDI range.
pub proof fn law_generated_notes_in_range(g: GenerativeSettings, rng: u64, i: int)
    requires
        i >= 0,
        rng != 0,
        g.range >= 1,
        0 <= (g.octave + 1) * 12,
        (g.octave + 1) * 12 + g.root % 12 + 12 * g.range <= 128,
        composed(g, rng, i).active,
    ensures
        (g.octave + 1) * 12 + g.root % 12 <= composed(g, rng, i).note,
        composed(g, rng, i).note < (g.octave + 1) * 12 + g.root % 12 + 12 * g.range,
{
    reveal(Walk::written);
    let w = walk_to(g, rng, i).decided(i);
    let there = w.moved(g, i % 4 == 0);
    lemma_walk_in_range(g, rng, i);
    lemma_move_in_range(g, w, i % 4 == 0);
    scale::lemma_offsets(g.scale);
    let n = g.scale.offsets().len() as int;
    let d = there.degree;
    assert(n * g.range >= n) by (nonlinear_arith)
        requires
            g.range >= 1,
            n >= 5,
    ;
    vstd::arithmetic::div_mod::lemma_fundamental_div_mod(d, n);
    assert(0 <= d / n < g.range) by (nonlinear_arith)
        requires
            d == n * (d / n) + d % n,
            0 <= d % n < n,
            0 <= d <= n * g.range - 1,
            n >= 5,
    ;
}

/// The velocity of a generated note: louder on a downbeat than anywhere else.
proof fn lemma_velocity_in_range(w: Walk)
    ensures
        of(0x3F59_999A).at_most(w.velocity(true)),
        w.velocity(true).at_most(of(0x3F80_0000)),
        of(0x3F00_0000).at_most(w.velocity(false)),
        w.velocity(false).at_most(of(0x3F40_0000)),
{
    let x = rng::unit_draw(w.word());
    rng::law_unit_draw_in_range(w.word());
    bounds::lemma_unit();
    bounds::lemma_velocities();
    let (a, b) = (of(0x3E19_999A), of(0x3E80_0000));
    bounds::lemma_unit_product(x, a);
    bounds::lemma_unit_product(x, b);
    bounds::lemma_in_unit(x.product(a));
    bounds::lemma_in_unit(x.product(b));
    let (high, low) = (of(0x3F59_999A), of(0x3F00_0000));
    bounds::lemma_sum_bounds(high, x.product(a), high);
    bounds::lemma_within_one(high, x.product(a));
    bounds::lemma_sum_bounds(low, x.product(b), low);
    bounds::lemma_sum_bounds(low, x.product(b), of(0x3F40_0000));
}

/// The shape of a generated pattern, whatever the seed: it has the length asked
/// for, and a first step that sounds. At full density every step does. What
/// sounds is accented on the downbeats alone, and louder there; what does not is
/// a plain rest.
pub proof fn law_generated_pattern_shape(m: SeqModel, g: GenerativeSettings, i: int)
    requires
        0 <= i < g.steps(),
    ensures
        m.regenerated(g).length == g.steps(),
        ({
            let step = m.regenerated(g).pattern[i];
            let strong = i % 4 == 0;
            &&& i == 0 || of(0x3F80_0000).at_most(g.density) ==> step.active
            &&& !step.active ==> step == Step::blank()
            &&& step.active ==> step.accent == strong && !step.slide
            &&& step.active && strong ==> of(0x3F59_999A).at_most(step.velocity)
                && step.velocity.at_most(of(0x3F80_0000))
            &&& step.active && !strong ==> of(0x3F00_0000).at_most(step.velocity)
                && step.velocity.at_most(of(0x3F40_0000))
        }),
{
    reveal(Walk::written);
    let w = walk_to(g, m.rng, i);
    assert(m.regenerated(g).pattern[i] == w.written(g, i));
    rng::law_unit_draw_in_range(w.word());
    lemma_velocity_in_range(w.decided(i).moved(g, i % 4 == 0));
}

/// The same register and the same settings write the same melody: a good one
/// can be had again from its seed.
pub proof fn law_same_seed_same_melody(a: SeqModel, b: SeqModel, g: GenerativeSettings)
    requires
        a.wf(),
        b.wf(),
        a.rng == b.rng,
    ensures
        a.regenerated(g).pattern.take(g.steps()) == b.regenerated(g).pattern.take(g.steps()),
        a.regenerated(g).length == b.regenerated(g).length,
        a.regenerated(g).rng == b.regenerated(g).rng,
{
    assert(a.regenerated(g).pattern.take(g.steps()) =~= b.regenerated(g).pattern.take(g.steps()));
}

impl Sequencer {
    /// Writes a fresh pattern.
    ///
    /// Deterministic given the generator's register, so the same seed always
    /// produces the same melody.
    pub fn regenerate(&mut self, gen: &GenerativeSettings)
        requires
            old(self).wf(),
            gen.fits(),
        ensures
            final(self).wf(),
            final(self)@ == old(self)@.regenerated(*gen),
    {
        let length: usize = if gen.length < 1 {
            1
        } else if gen.length > MAX_STEPS {
            MAX_STEPS
        } else {
            gen.length
        };
        self.length = length;
        let quantizer: ScaleQuantizer = ScaleQuantizer::new(gen.root, gen.scale);
        let scale_len: usize = gen.scale.len();
        assert(0 <= scale_len * gen.range) by (nonlinear_arith)
            requires
                0 <= scale_len,
                0 <= gen.range,
        ;
        let top: i32 = (scale_len as u32 * gen.range) as i32 - 1;
        let max_degree: i32 = if top < 0 {
            0
        } else {
            top
        };
        let jump: i32 = leap_of(gen.max_jump);
        let mut degree: i32 = 0;
        let mut i: usize = 0;
        while i < length
            invariant
                length == gen.steps(),
                length <= MAX_STEPS,
                i <= length,
                quantizer == gen.quantizer(),
                max_degree == gen.max_degree(),
                max_degree < 0x7FFF_FFFF,
                jump == gen.jump(),
                self.rng.wf(),
                degree == walk_to(*gen, old(self).rng.state(), i as int).degree,
                self.rng.state() == walk_to(*gen, old(self).rng.state(), i as int).rng,
                0 <= degree <= max_degree,
                old(self).wf(),
                self@ == (SeqModel {
                    pattern: self.pattern@,
                    length: length as int,
                    rng: self.rng.state(),
                    ..old(self)@
                }),
                self.queued == old(self).queued,
                forall|k: int|
                    0 <= k < MAX_STEPS ==> #[trigger] self.pattern@[k] == (if k < i {
                        composed(*gen, old(self).rng.state(), k)
                    } else {
                        old(self).pattern@[k]
                    }),
            decreases length - i,
        {
            proof {
                lemma_walk_in_range(*gen, old(self).rng.state(), (i + 1) as int);
            }
            let (step, next): (Step, i32) = compose_step(
                &mut self.rng,
                gen,
                &quantizer,
                max_degree,
                jump,
                i,
                degree,
                &mut self.weighing,
            );
            self.pattern[i] = step;
            degree = next;
            assert(self.pattern@[i as int] == composed(*gen, old(self).rng.state(), i as int));
            i = i + 1;
        }
        assert(self.pattern@ =~= old(self)@.regenerated(*gen).pattern);
    }
}

/// Draws step `i` of a pattern, and the degree the line is on after it.
fn compose_step(
    rng: &mut Rng,
    gen: &GenerativeSettings,
    quantizer: &ScaleQuantizer,
    max_degree: i32,
    jump: i32,
    i: usize,
    degree: i32,
    weighing: &mut Weighing,
) -> (r: (Step, i32))
    requires
        old(rng).wf(),
        *quantizer == gen.quantizer(),
        max_degree == gen.max_degree(),
        max_degree < 0x7FFF_FFFF,
        jump == gen.jump(),
        0 <= degree <= max_degree,
    ensures
        final(rng).wf(),
        ({
            let w = Walk { degree: degree as int, rng: old(rng).state() };
            &&& r.0 == w.written(*gen, i as int)
            &&& r.1 == w.after(*gen, i as int).degree
            &&& final(rng).state() == w.after(*gen, i as int).rng
        }),
{
    let ghost w = Walk { degree: degree as int, rng: rng.state() };
    proof {
        reveal(Walk::written);
        reveal(Walk::after);
    }
    let strong: bool = i % 4 == 0;
    // Step 0 always sounds, whatever the density: a pattern that starts with a
    // rest has no audible downbeat to lock onto.
    let sounds: bool = if i == 0 {
        true
    } else {
        rng.chance(gen.density)
    };
    if !sounds {
        return (Step::default(), degree);
    }
    let ghost here = w.decided(i as int);
    proof {
        lemma_reach(*gen, degree as int);
    }
    let low: i32 = if degree - jump < 0 {
        0
    } else {
        degree - jump
    };
    let high: i32 = if degree > max_degree - jump {
        max_degree
    } else {
        degree + jump
    };
    let count: usize = (high - low + 1) as usize;
    weigh_moves(gen, quantizer, strong, degree, low, count, weighing);
    assert(weighing.weights@ =~= gen.move_weights(strong, degree as int));
    let pick: usize = rng.weighted(&weighing.weights);
    assert(low + pick == here.moved(*gen, strong).degree);
    assert(rng.state() == here.moved(*gen, strong).rng);
    let next: i32 = low + pick as i32;
    let note: u8 = quantizer.degree_to_midi(next, gen.octave);
    // Downbeats louder than offbeats. Dynamics are half of what makes a line
    // sound played rather than sequenced.
    let x: Single = rng.next_f32();
    let velocity: Single = if strong {
        of(0x3F59_999A).plus(x.times(of(0x3E19_999A)))
    } else {
        of(0x3F00_0000).plus(x.times(of(0x3E80_0000)))
    };
    (Step { active: true, note, velocity, accent: strong, slide: false }, next)
}

/// The longest leap a setting allows.
fn leap_of(x: Single) -> (n: i32)
    ensures
        n == (if x.nan() {
            0
        } else {
            longest_leap(x, 12)
        }),
        0 <= n <= 12,
{
    if x.is_nan() {
        return 0;
    }
    let mut n: i32 = 12;
    while n > 1
        invariant
            1 <= n <= 12,
            longest_leap(x, 12) == longest_leap(x, n as int),
        decreases n,
    {
        let half: Single = Single::ratio((2 * n - 1) as u32, 2);
        if half.le(x) {
            return n;
        }
        n = n - 1;
    }
    1
}

/// Weighs the degrees within reach of the present one.
fn weigh_moves(
    gen: &GenerativeSettings,
    quantizer: &ScaleQuantizer,
    strong: bool,
    degree: i32,
    low: i32,
    count: usize,
    weighing: &mut Weighing,
)
    requires
        *quantizer == gen.quantizer(),
        0 <= degree,
        0 <= low <= degree,
        count <= 25,
        low + count <= 0x7FFF_FFFF,
    ensures
        final(weighing).weights@.len() == count,
        forall|k: int|
            0 <= k < count ==> #[trigger] final(weighing).weights@[k] == gen.move_weight(
                strong,
                degree as int,
                low + k,
            ),
{
    weighing.pulls.clear();
    let mut j: usize = 0;
    while j < 12
        invariant
            j <= 12,
            weighing.pulls@.len() == j,
        decreases 12 - j,
    {
        weighing.pulls.push(of(0));
        j = j + 1;
    }
    let scale_len: usize = gen.scale.len();
    quantizer.degree_weights(gen.chord_bias, strong, &mut weighing.pulls);
    weighing.weights.clear();
    let mut k: usize = 0;
    while k < count
        invariant
            *quantizer == gen.quantizer(),
            scale_len == gen.scale.offsets().len(),
            5 <= scale_len <= 12,
            0 <= degree,
            0 <= low <= degree,
            count <= 25,
            low + count <= 0x7FFF_FFFF,
            k <= count,
            weighing.pulls@.len() == 12,
            forall|i: int|
                0 <= i < scale_len ==> #[trigger] weighing.pulls@[i] == quantizer.degree_weight(
                    gen.chord_bias,
                    strong,
                    i,
                ),
            weighing.weights@.len() == k,
            forall|i: int|
                0 <= i < k ==> #[trigger] weighing.weights@[i] == gen.move_weight(
                    strong,
                    degree as int,
                    low + i,
                ),
        decreases count - k,
    {
        let candidate: i32 = low + k as i32;
        let index: usize = candidate as usize % scale_len;
        // Melodies move by step far more often than they leap.
        let distance: Single = Single::from_whole(
            if candidate < degree {
                (degree - candidate) as u64
            } else {
                (candidate - degree) as u64
            },
        );
        let proximity: Single = of(0x3F80_0000).over(
            of(0x3F80_0000).plus(distance.times(of(0x3F19_999A))),
        );
        // Discourage, but do not forbid, repeating the same note.
        let repetition: Single = if candidate == degree {
            of(0x3EB3_3333)
        } else {
            of(0x3F80_0000)
        };
        weighing.weights.push(weighing.pulls[index].times(proximity).times(repetition));
        k = k + 1;
    }
}

/// While the clock runs, a loaded pattern waits for the bar line: until the top
/// of the loop is reached the steps stay as they were, and there the new ones
/// take over, from their own first.
pub proof fn law_loaded_pattern_waits_for_the_bar_line(
    m: SeqModel,
    s: SeqSettings,
    clock: ClockView,
    out: SeqOutput,
)
    requires
        m.wf(),
    ensures
        m.next_position() != 0 ==> m.stepped(s, clock, out).0.pattern == m.pattern && m.stepped(
            s,
            clock,
            out,
        ).0.queued == m.queued,
        m.next_position() == 0 && m.queued is Some ==> ({
            let after = m.stepped(s, clock, out).0;
            let p = m.queued->0;
            &&& after.pattern.take(p.len() as int) == p
            &&& after.queued is None
            &&& after.position == Some(0int)
            &&& after.pattern_changed
            &&& p.len() >= 1 ==> after.length == p.len()
        }),
{
    if m.next_position() == 0 && m.queued is Some {
        let p = m.queued->0;
        assert((p + m.pattern.skip(p.len() as int)).take(p.len() as int) =~= p);
    }
}

/// While the clock runs and crosses no step, a loaded pattern goes on waiting;
/// while it is stopped, it lands within the block.
pub proof fn law_loaded_pattern_lands_at_once_when_stopped(
    m: SeqModel,
    samples: int,
    clock: ClockView,
    s: SeqSettings,
)
    requires
        m.wf(),
        m.queued is Some,
    ensures
        clock.running ==> m.advanced(samples, Advance { steps: 0 }, clock, s).0.queued == m.queued
            && m.advanced(samples, Advance { steps: 0 }, clock, s).0.pattern == m.pattern,
        !clock.running ==> ({
            let after = m.advanced(samples, Advance { steps: 0 }, clock, s).0;
            let p = m.queued->0;
            &&& after.pattern.take(p.len() as int) == p
            &&& after.queued is None
            &&& after.pattern_changed
            &&& p.len() >= 1 ==> after.length == p.len()
        }),
{
    let p = m.queued->0;
    assert((p + m.pattern.skip(p.len() as int)).take(p.len() as int) =~= p);
}

/// Of two patterns loaded before the bar line, only the last is ever heard.
pub proof fn law_last_loaded_pattern_wins(m: SeqModel, first: Seq<Step>, second: Seq<Step>)
    ensures
        ({
            let once = SeqModel { queued: Some(first), ..m };
            let twice = SeqModel { queued: Some(second), ..once };
            twice.landed() == (SeqModel { queued: Some(second), ..m }).landed()
        }),
{
}

/// No note hangs: in a block that starts one note at most, a sounding note
/// either goes on sounding, with nothing started over it, or is released.
pub proof fn law_no_note_hangs(
    m: SeqModel,
    samples: int,
    adv: Advance,
    clock: ClockView,
    s: SeqSettings,
    note: u8,
)
    requires
        m.wf(),
        m.sounding == Some(note),
        adv.steps <= 1,
        m.pending is None || adv.steps == 0,
    ensures
        ({
            let (after, out) = m.advanced(samples, adv, clock, s);
            ||| after.sounding == Some(note) && out.note_on is None && out.note_off is None
            ||| out.note_off == Some(note)
        }),
{
    reveal_with_fuel(SeqModel::stepped_by, 3);
}

/// A note that starts is the note that then sounds.
pub proof fn law_started_note_sounds(
    m: SeqModel,
    samples: int,
    adv: Advance,
    clock: ClockView,
    s: SeqSettings,
)
    requires
        m.wf(),
        adv.steps <= 1,
    ensures
        ({
            let (after, out) = m.advanced(samples, adv, clock, s);
            out.note_on matches Some(n) ==> after.sounding == Some(n.0)
        }),
{
    reveal_with_fuel(SeqModel::stepped_by, 3);
}

/// A sequencer at rest stays silent as long as the clock crosses no step.
pub proof fn law_resting_sequencer_is_silent(
    m: SeqModel,
    samples: int,
    clock: ClockView,
    s: SeqSettings,
)
    requires
        m.sounding is None,
        m.pending is None,
    ensures
        m.advanced(samples, Advance { steps: 0 }, clock, s).1 == SeqOutput::nothing(),
{
}

/// The loop closes: from any place inside it, each step goes to the next one,
/// and from the last back to the first.
pub proof fn law_loop_closes(m: SeqModel)
    requires
        m.wf(),
        m.position matches Some(p) ==> p < m.length,
    ensures
        0 <= m.next_position() < m.length,
        m.position matches Some(p) ==> m.next_position() == (if p + 1 == m.length {
            0
        } else {
            p + 1
        }),
{
    if let Some(p) = m.position {
        if p + 1 < m.length {
            vstd::arithmetic::div_mod::lemma_small_mod((p + 1) as nat, m.length as nat);
        } else {
            vstd::arithmetic::div_mod::lemma_mod_self_0(m.length);
        }
    }
}

/// Whether two lines are on one step of loops of one length, and what waits for
/// the bar line, if anything does, is of one length too.
pub open spec fn in_step(a: SeqModel, b: SeqModel) -> bool {
    &&& a.position == b.position
    &&& a.length == b.length
    &&& a.last_length == b.last_length
    &&& match (a.queued, b.queued) {
        (Some(p), Some(q)) => p.len() == q.len(),
        (None, None) => true,
        _ => false,
    }
}

/// Two lines on one step reach the next one together, whatever they play there.
pub proof fn law_lines_step_together(
    a: SeqModel,
    b: SeqModel,
    s: SeqSettings,
    t: SeqSettings,
    clock: ClockView,
    out: SeqOutput,
    low: SeqOutput,
)
    requires
        in_step(a, b),
    ensures
        in_step(a.stepped(s, clock, out).0, b.stepped(t, clock, low).0),
{
}

proof fn lemma_lines_step_together_by(
    a: SeqModel,
    b: SeqModel,
    n: nat,
    s: SeqSettings,
    t: SeqSettings,
    clock: ClockView,
    out: SeqOutput,
    low: SeqOutput,
)
    requires
        in_step(a, b),
    ensures
        in_step(a.stepped_by(n, s, clock, out).0, b.stepped_by(n, t, clock, low).0),
    decreases n,
{
    if n > 0 {
        let k = (n - 1) as nat;
        lemma_lines_step_together_by(a, b, k, s, t, clock, out, low);
        let (x, o) = a.stepped_by(k, s, clock, out);
        let (y, l) = b.stepped_by(k, t, clock, low);
        law_lines_step_together(x, y, s, t, clock, o, l);
    }
}

/// Two lines on one step are on one step after a block, for as long as they are
/// asked for one length.
pub proof fn law_lines_advance_together(
    a: SeqModel,
    b: SeqModel,
    samples: int,
    adv: Advance,
    clock: ClockView,
    s: SeqSettings,
    t: SeqSettings,
)
    requires
        in_step(a, b),
        s.requested() == t.requested(),
    ensures
        in_step(a.advanced(samples, adv, clock, s).0, b.advanced(samples, adv, clock, t).0),
{
    let (x, y) = (a.resized(s.requested()), b.resized(t.requested()));
    let (x, y) = if clock.running {
        (x, y)
    } else {
        (x.landed(), y.landed())
    };
    assert(in_step(x, y));
    let n = Single::nearest_to(samples);
    let (x, o) = x.gated(n, SeqOutput::nothing());
    let (y, l) = y.gated(n, SeqOutput::nothing());
    let (x, o) = x.swung(n, s, clock, o);
    let (y, l) = y.swung(n, t, clock, l);
    assert(in_step(x, y));
    lemma_lines_step_together_by(x, y, adv.steps as nat, s, t, clock, o, l);
}

/// One block of a run: its samples, how far the clock went, and what it showed.
pub struct Turn {
    pub samples: int,
    pub adv: Advance,
    pub clock: ClockView,
}

/// How many steps some blocks cross.
pub open spec fn steps_in(turns: Seq<Turn>) -> int
    decreases turns.len(),
{
    if turns.len() == 0 {
        0
    } else {
        steps_in(turns.drop_last()) + turns.last().adv.steps
    }
}

impl SeqModel {
    /// How many steps it takes to reach the top of the loop.
    pub open spec fn to_bar_line(self) -> int {
        match self.position {
            Some(p) => self.length - p,
            None => 1,
        }
    }

    /// A block played.
    pub open spec fn turned(self, t: Turn, s: SeqSettings) -> SeqModel {
        self.advanced(t.samples, t.adv, t.clock, s).0
    }

    /// Some blocks played, a change of the steps on show asked after and
    /// reported behind each of them.
    pub open spec fn run(self, turns: Seq<Turn>, s: SeqSettings) -> SeqModel
        decreases turns.len(),
    {
        if turns.len() == 0 {
            self
        } else {
            SeqModel {
                pattern_changed: false,
                ..self.run(turns.drop_last(), s).turned(turns.last(), s)
            }
        }
    }

    /// Whether the last of some blocks reports a change.
    pub open spec fn reports(self, turns: Seq<Turn>, s: SeqSettings) -> bool {
        self.run(turns.drop_last(), s).turned(turns.last(), s).pattern_changed
    }

    /// Whether a line loops as its knob last asked, with nothing to report.
    pub open spec fn settled(self, s: SeqSettings) -> bool {
        &&& self.wf()
        &&& self.last_length == s.requested()
        &&& !self.pattern_changed
        &&& self.position matches Some(p) ==> p < self.length
    }
}

/// Up to the bar line, steps change neither the pattern nor what waits.
proof fn lemma_steps_before_the_bar_line(
    m: SeqModel,
    n: nat,
    s: SeqSettings,
    clock: ClockView,
    out: SeqOutput,
)
    requires
        m.wf(),
        m.position matches Some(p) ==> p < m.length,
        n < m.to_bar_line(),
    ensures
        ({
            let x = m.stepped_by(n, s, clock, out).0;
            &&& x.wf()
            &&& x.pattern == m.pattern
            &&& x.queued == m.queued
            &&& x.length == m.length
            &&& x.last_length == m.last_length
            &&& x.pattern_changed == m.pattern_changed
            &&& x.position matches Some(p) ==> p < x.length
            &&& x.to_bar_line() == m.to_bar_line() - n
        }),
    decreases n,
{
    if n > 0 {
        let k = (n - 1) as nat;
        lemma_steps_before_the_bar_line(m, k, s, clock, out);
        let x = m.stepped_by(k, s, clock, out).0;
        law_loop_closes(x);
    }
}

/// Once nothing waits, steps change no pattern.
proof fn lemma_steps_with_nothing_waiting(
    m: SeqModel,
    n: nat,
    s: SeqSettings,
    clock: ClockView,
    out: SeqOutput,
)
    requires
        m.queued is None,
    ensures
        ({
            let x = m.stepped_by(n, s, clock, out).0;
            &&& x.pattern == m.pattern
            &&& x.queued is None
            &&& x.length == m.length
            &&& x.last_length == m.last_length
            &&& x.pattern_changed == m.pattern_changed
        }),
    decreases n,
{
    if n > 0 {
        lemma_steps_with_nothing_waiting(m, (n - 1) as nat, s, clock, out);
    }
}

/// From the bar line on, the waiting pattern plays.
proof fn lemma_steps_over_the_bar_line(
    m: SeqModel,
    n: nat,
    s: SeqSettings,
    clock: ClockView,
    out: SeqOutput,
)
    requires
        m.wf(),
        m.position matches Some(p) ==> p < m.length,
        m.queued is Some,
        n >= m.to_bar_line(),
    ensures
        ({
            let x = m.stepped_by(n, s, clock, out).0;
            &&& x.pattern == m.landed().pattern
            &&& x.length == m.landed().length
            &&& x.queued is None
            &&& x.last_length == m.last_length
            &&& x.pattern_changed
        }),
    decreases n,
{
    let k = (n - 1) as nat;
    let (x, o) = m.stepped_by(k, s, clock, out);
    if n > m.to_bar_line() {
        lemma_steps_over_the_bar_line(m, k, s, clock, out);
    } else {
        lemma_steps_before_the_bar_line(m, k, s, clock, out);
        law_loop_closes(x);
    }
}

/// What a block does to a line whose knob rests, while the clock runs.
proof fn lemma_turn(m: SeqModel, t: Turn, s: SeqSettings)
    requires
        m.last_length == s.requested(),
        t.clock.running,
    ensures
        ({
            let x = m.turned(t, s);
            &&& m.settled(s) && t.adv.steps < m.to_bar_line() ==> {
                &&& x.settled(s)
                &&& x.pattern == m.pattern
                &&& x.queued == m.queued
                &&& x.length == m.length
                &&& x.to_bar_line() == m.to_bar_line() - t.adv.steps
            }
            &&& m.settled(s) && m.queued is Some && t.adv.steps >= m.to_bar_line() ==> {
                &&& x.pattern == m.landed().pattern
                &&& x.length == m.landed().length
                &&& x.queued is None
                &&& x.last_length == m.last_length
                &&& x.pattern_changed
            }
            &&& m.queued is None ==> {
                &&& x.pattern == m.pattern
                &&& x.queued is None
                &&& x.length == m.length
                &&& x.last_length == m.last_length
                &&& x.pattern_changed == m.pattern_changed
            }
        }),
{
    let n = Single::nearest_to(t.samples);
    let (a, x) = m.gated(n, SeqOutput::nothing());
    let (b, y) = a.swung(n, s, t.clock, x);
    assert(b.wf() == m.wf());
    if m.settled(s) && t.adv.steps < m.to_bar_line() {
        lemma_steps_before_the_bar_line(b, t.adv.steps as nat, s, t.clock, y);
    }
    if m.settled(s) && m.queued is Some && t.adv.steps >= m.to_bar_line() {
        lemma_steps_over_the_bar_line(b, t.adv.steps as nat, s, t.clock, y);
    }
    if m.queued is None {
        lemma_steps_with_nothing_waiting(b, t.adv.steps as nat, s, t.clock, y);
    }
}

/// Over any run of blocks, a waiting pattern replaces the old one at the bar line
/// and nowhere else: before it the old steps play on, from it the new ones do, and
/// the block that crosses it is the one that reports a change.
pub proof fn law_a_waiting_pattern_replaces_at_the_bar_line(
    m: SeqModel,
    turns: Seq<Turn>,
    s: SeqSettings,
)
    requires
        m.settled(s),
        m.queued is Some,
        forall|i: int| 0 <= i < turns.len() ==> (#[trigger] turns[i]).clock.running,
    ensures
        ({
            let x = m.run(turns, s);
            &&& steps_in(turns) < m.to_bar_line() ==> {
                &&& x.settled(s)
                &&& x.pattern == m.pattern
                &&& x.length == m.length
                &&& x.queued == m.queued
                &&& x.to_bar_line() == m.to_bar_line() - steps_in(turns)
            }
            &&& steps_in(turns) >= m.to_bar_line() ==> {
                &&& x.pattern.take(m.queued->0.len() as int) == m.queued->0
                &&& x.pattern == m.landed().pattern
                &&& x.length == m.landed().length
                &&& x.queued is None
                &&& x.last_length == m.last_length
                &&& !x.pattern_changed
            }
            &&& turns.len() > 0 ==> (m.reports(turns, s) <==> steps_in(turns.drop_last())
                < m.to_bar_line() <= steps_in(turns))
        }),
    decreases turns.len(),
{
    let p = m.queued->0;
    assert((p + m.pattern.skip(p.len() as int)).take(p.len() as int) =~= p);
    if turns.len() > 0 {
        let before = turns.drop_last();
        assert forall|i: int| 0 <= i < before.len() implies (#[trigger] before[i]).clock.running by {
            assert(before[i] == turns[i]);
        }
        law_a_waiting_pattern_replaces_at_the_bar_line(m, before, s);
        lemma_turn(m.run(before, s), turns.last(), s);
    }
}

/// Of two patterns loaded before the bar line only the last is ever heard, however
/// the blocks fall: up to the bar line the old steps play, and from it the second
/// pattern's.
pub proof fn law_the_last_loaded_pattern_plays(
    m: SeqModel,
    first: Seq<Turn>,
    pattern: Seq<Step>,
    after: Seq<Turn>,
    s: SeqSettings,
)
    requires
        m.settled(s),
        m.queued is Some,
        pattern.len() <= MAX_STEPS,
        forall|i: int| 0 <= i < first.len() ==> (#[trigger] first[i]).clock.running,
        forall|i: int| 0 <= i < after.len() ==> (#[trigger] after[i]).clock.running,
        steps_in(first) < m.to_bar_line(),
    ensures
        ({
            let again = SeqModel { queued: Some(pattern), ..m.run(first, s) };
            let x = again.run(after, s);
            &&& again.pattern == m.pattern
            &&& steps_in(first) + steps_in(after) < m.to_bar_line() ==> x.pattern == m.pattern
            &&& steps_in(first) + steps_in(after) >= m.to_bar_line() ==> {
                &&& x.pattern.take(pattern.len() as int) == pattern
                &&& x.queued is None
            }
        }),
{
    law_a_waiting_pattern_replaces_at_the_bar_line(m, first, s);
    let again = SeqModel { queued: Some(pattern), ..m.run(first, s) };
    law_a_waiting_pattern_replaces_at_the_bar_line(again, after, s);
}

} // verus!
