//! The synthesizer as the rest of a program sees it: notes, transport, patterns,
//! and what the audio thread reports back.
//!
//! Nothing here generates a sample. These calls only write parameters and queue
//! events; a frame spike will never glitch the audio.

use crate::drums::pattern;
use crate::drums::pattern::{Cell, DrumPattern};
use crate::event::{Event, EventQueue};
use crate::midi::PortSelector;
use crate::params;
use crate::params::{of, SharedParams};
use crate::sequencer::{Pattern, Step, MAX_STEPS};
use crate::single::Single;
use vstd::prelude::*;

verus! {

/// How to connect to MIDI hardware.
#[derive(Debug, Clone, PartialEq, Eq)]
pub enum MidiMode {
    /// Do not touch MIDI at all.
    Disabled,
    /// Connect to the first available input port, if there is one.
    FirstAvailable,
    /// Connect to the first port whose name contains this string,
    /// case-insensitively.
    Matching(String),
}

impl Default for MidiMode {
    fn default() -> (m: MidiMode)
        ensures
            m == MidiMode::Disabled,
    {
        MidiMode::Disabled
    }
}

impl MidiMode {
    /// The port to look for, if MIDI is wanted.
    pub fn selector(&self) -> (s: Option<PortSelector>)
        ensures
            match self {
                MidiMode::Disabled => s is None,
                MidiMode::FirstAvailable => s == Some(PortSelector::First),
                MidiMode::Matching(needle) => s matches Some(PortSelector::Matching(n)) && n@
                    == needle@,
            },
    {
        match self {
            MidiMode::Disabled => None,
            MidiMode::FirstAvailable => Some(PortSelector::First),
            MidiMode::Matching(needle) => Some(PortSelector::Matching(needle.clone())),
        }
    }
}

/// An open audio stream, as far as control goes.
pub struct Stream {
    pub events: EventQueue,
    pub sample_rate: Single,
}

/// The synthesizer handle. Without an audio device it is still there: systems that
/// play notes keep running, they just make no sound.
pub struct Synth {
    pub inner: Option<Stream>,
    /// Direct access to every parameter, for UI and patch code.
    pub params: SharedParams,
}

/// Whether an index fits the byte an event carries it in.
pub open spec fn byte(index: usize) -> bool {
    index <= 255
}

impl Synth {
    pub open spec fn wf(self) -> bool {
        self.inner matches Some(s) ==> s.events.wf()
    }

    /// The events on their way to the audio thread.
    pub open spec fn queued(self) -> Seq<Event> {
        match self.inner {
            Some(s) => s.events@,
            None => Seq::empty(),
        }
    }

    /// Whether one more event would be taken: there is a stream, and room.
    pub open spec fn takes_events(self) -> bool {
        self.inner matches Some(s) && s.events@.len() < s.events.room()
    }

    /// Whether `after` is this handle once it was asked to send an event, and `sent`
    /// tells whether it was taken.
    pub open spec fn after_sending(self, event: Event, sent: bool, after: Synth) -> bool {
        &&& after.wf()
        &&& sent == self.takes_events()
        &&& after.queued() == if sent {
            self.queued().push(event)
        } else {
            self.queued()
        }
        &&& self.same_but_queue(after)
    }

    /// Whether nothing but the queued events differs.
    pub open spec fn same_but_queue(self, after: Synth) -> bool {
        &&& after.params == self.params
        &&& after.inner is Some == self.inner is Some
        &&& self.inner matches Some(s) ==> after.inner->0.sample_rate == s.sample_rate
            && after.inner->0.events.room() == s.events.room()
    }

    /// True if audio actually opened. Worth checking before showing a UI that
    /// implies sound is coming out.
    pub fn is_running(&self) -> (yes: bool)
        ensures
            yes == self.inner is Some,
    {
        self.inner.is_some()
    }

    /// The device's sample rate; zero without one.
    pub fn sample_rate(&self) -> (rate: Single)
        ensures
            rate == (match self.inner {
                Some(s) => s.sample_rate,
                None => of(0),
            }),
    {
        match &self.inner {
            Some(s) => s.sample_rate,
            None => of(0),
        }
    }

    /// Sends an event to the audio thread.
    ///
    /// Returns `false` if the queue was full and the event was dropped, which in
    /// practice means the audio thread has stopped, or if there is no stream.
    pub fn send(&mut self, event: Event) -> (sent: bool)
        requires
            old(self).wf(),
        ensures
            old(self).after_sending(event, sent, *final(self)),
    {
        match &mut self.inner {
            Some(stream) => stream.events.push(event),
            None => false,
        }
    }

    /// Starts a note. Velocity is `0.0..=1.0`.
    pub fn note_on(&mut self, note: u8, velocity: Single) -> (sent: bool)
        requires
            old(self).wf(),
        ensures
            old(self).after_sending(Event::NoteOn { note, velocity }, sent, *final(self)),
    {
        self.send(Event::NoteOn { note, velocity })
    }

    pub fn note_off(&mut self, note: u8) -> (sent: bool)
        requires
            old(self).wf(),
        ensures
            old(self).after_sending(Event::NoteOff { note }, sent, *final(self)),
    {
        self.send(Event::NoteOff { note })
    }

    /// Releases every note, respecting release times.
    pub fn all_notes_off(&mut self) -> (sent: bool)
        requires
            old(self).wf(),
        ensures
            old(self).after_sending(Event::AllNotesOff, sent, *final(self)),
    {
        self.send(Event::AllNotesOff)
    }

    /// Cuts all sound immediately. Clicks; for stuck notes only.
    pub fn panic(&mut self) -> (sent: bool)
        requires
            old(self).wf(),
        ensures
            old(self).after_sending(Event::Panic, sent, *final(self)),
    {
        self.send(Event::Panic)
    }

    /// Starts the sequencer from the beginning of the pattern.
    pub fn play(&mut self) -> (sent: bool)
        requires
            old(self).wf(),
        ensures
            old(self).after_sending(Event::ClockStart, sent, *final(self)),
    {
        self.send(Event::ClockStart)
    }

    pub fn stop(&mut self) -> (sent: bool)
        requires
            old(self).wf(),
        ensures
            old(self).after_sending(Event::ClockStop, sent, *final(self)),
    {
        self.send(Event::ClockStop)
    }

    /// Resumes without rewinding.
    pub fn resume(&mut self) -> (sent: bool)
        requires
            old(self).wf(),
        ensures
            old(self).after_sending(Event::ClockContinue, sent, *final(self)),
    {
        self.send(Event::ClockContinue)
    }

    /// The sequencer's current pattern, read from the mirror the audio thread
    /// publishes whenever it changes.
    pub fn pattern(&self) -> (p: Pattern)
        ensures
            p.wf(),
            p.len == params::counted(self.params.pattern_len as int, 1, MAX_STEPS as int),
            forall|i: int|
                0 <= i < MAX_STEPS ==> #[trigger] p.steps[i] == params::unpacked_step(
                    self.params.pattern[i],
                ),
    {
        self.params.read_pattern()
    }

    /// Overwrites one step of the pattern. An index no pattern could have is
    /// refused.
    pub fn set_step(&mut self, index: usize, step: Step) -> (sent: bool)
        requires
            old(self).wf(),
        ensures
            byte(index) ==> old(self).after_sending(
                Event::SetStep { index: index as u8, step },
                sent,
                *final(self),
            ),
            !byte(index) ==> !sent && *final(self) == *old(self),
    {
        if index > 255 {
            return false;
        }
        self.send(Event::SetStep { index: index as u8, step })
    }

    /// Turns one step on or off, keeping its note and velocity: a step switched off
    /// and on again comes back with the note the generator chose.
    pub fn toggle_step(&mut self, index: usize) -> (sent: bool)
        requires
            old(self).wf(),
        ensures
            byte(index) ==> old(self).after_sending(
                Event::SetStep {
                    index: index as u8,
                    step: switched(mirrored_step(old(self).params.pattern@, index as int)),
                },
                sent,
                *final(self),
            ),
            !byte(index) ==> !sent && *final(self) == *old(self),
    {
        let mut step: Step = self.params.read_step(index);
        step.active = !step.active;
        self.set_step(index, step)
    }

    /// Plays a pattern saved earlier. The swap happens at the top of the next loop,
    /// or at once if the sequencer is stopped; the pattern brings its own length.
    pub fn load_pattern(&mut self, pattern: &Pattern)
        requires
            pattern.wf(),
        ensures
            final(self).inner == old(self).inner,
            final(self).params == (SharedParams {
                pending_pattern: final(self).params.pending_pattern,
                pending_length: pattern.len as u32,
                pending_request: old(self).params.pending_request.wrapping_add(1),
                ..old(self).params
            }),
            forall|i: int|
                0 <= i < MAX_STEPS ==> #[trigger] final(self).params.pending_pattern[i] == (if i
                    < pattern.len {
                    params::packed_step(pattern.steps[i]) as u32
                } else {
                    old(self).params.pending_pattern[i]
                }),
    {
        self.params.queue_pattern(pattern);
    }

    /// Asks for a new generated pattern from the current settings.
    pub fn regenerate(&mut self)
        ensures
            final(self).inner == old(self).inner,
            final(self).params == (SharedParams {
                gen_regenerate: old(self).params.gen_regenerate.wrapping_add(1),
                ..old(self).params
            }),
    {
        self.params.regenerate();
    }

    /// Sets the seed and asks for a new pattern, so that a given seed always yields
    /// the same melody.
    pub fn regenerate_with_seed(&mut self, seed: u64)
        ensures
            final(self).inner == old(self).inner,
            final(self).params == (SharedParams {
                gen_seed: seed,
                gen_regenerate: old(self).params.gen_regenerate.wrapping_add(1),
                ..old(self).params
            }),
    {
        self.params.gen_seed = seed;
        self.params.regenerate();
    }

    /// The bass line, read from its mirror.
    pub fn bass_pattern(&self) -> (p: Pattern)
        ensures
            p.wf(),
            p.len == params::counted(self.params.bass_pattern_len as int, 1, MAX_STEPS as int),
            forall|i: int|
                0 <= i < MAX_STEPS ==> #[trigger] p.steps[i] == params::unpacked_step(
                    self.params.bass_pattern[i],
                ),
    {
        self.params.read_bass_pattern()
    }

    /// Overwrites one step of the bass line.
    pub fn set_bass_step(&mut self, index: usize, step: Step) -> (sent: bool)
        requires
            old(self).wf(),
        ensures
            byte(index) ==> old(self).after_sending(
                Event::SetBassStep { index: index as u8, step },
                sent,
                *final(self),
            ),
            !byte(index) ==> !sent && *final(self) == *old(self),
    {
        if index > 255 {
            return false;
        }
        self.send(Event::SetBassStep { index: index as u8, step })
    }

    /// Turns one bass step on or off.
    pub fn toggle_bass_step(&mut self, index: usize) -> (sent: bool)
        requires
            old(self).wf(),
        ensures
            byte(index) ==> old(self).after_sending(
                Event::SetBassStep {
                    index: index as u8,
                    step: switched(mirrored_step(old(self).params.bass_pattern@, index as int)),
                },
                sent,
                *final(self),
            ),
            !byte(index) ==> !sent && *final(self) == *old(self),
    {
        let mut step: Step = self.params.read_bass_step(index);
        step.active = !step.active;
        self.set_bass_step(index, step)
    }

    /// Ties one bass step to the one before it, or unties it.
    pub fn toggle_bass_slide(&mut self, index: usize) -> (sent: bool)
        requires
            old(self).wf(),
        ensures
            byte(index) ==> old(self).after_sending(
                Event::SetBassStep {
                    index: index as u8,
                    step: tied(mirrored_step(old(self).params.bass_pattern@, index as int)),
                },
                sent,
                *final(self),
            ),
            !byte(index) ==> !sent && *final(self) == *old(self),
    {
        let mut step: Step = self.params.read_bass_step(index);
        step.slide = !step.slide;
        self.set_bass_step(index, step)
    }

    /// Accents one bass step, or takes the accent away.
    pub fn toggle_bass_accent(&mut self, index: usize) -> (sent: bool)
        requires
            old(self).wf(),
        ensures
            byte(index) ==> old(self).after_sending(
                Event::SetBassStep {
                    index: index as u8,
                    step: accented(mirrored_step(old(self).params.bass_pattern@, index as int)),
                },
                sent,
                *final(self),
            ),
            !byte(index) ==> !sent && *final(self) == *old(self),
    {
        let mut step: Step = self.params.read_bass_step(index);
        step.accent = !step.accent;
        self.set_bass_step(index, step)
    }

    /// Sets the bass generator's seed and asks for a new line.
    pub fn regenerate_bass_with_seed(&mut self, seed: u64)
        ensures
            final(self).inner == old(self).inner,
            final(self).params == (SharedParams {
                bass_gen_seed: seed,
                bass_regenerate: old(self).params.bass_regenerate.wrapping_add(1),
                ..old(self).params
            }),
    {
        self.params.bass_gen_seed = seed;
        self.params.bass_regenerate = self.params.bass_regenerate.wrapping_add(1);
    }

    /// The drum grid, read from its mirror.
    pub fn drum_grid(&self) -> (g: DrumPattern)
        ensures
            g.wf(),
            g.len == params::counted(self.params.drum_grid_len as int, 1, MAX_STEPS as int),
            forall|i: int, k: int|
                0 <= i < MAX_STEPS && 0 <= k < 8 ==> #[trigger] g.columns[i][k] == mirrored_cell(
                    self.params.drum_grid@,
                    i,
                    k,
                ),
    {
        self.params.read_drum_grid()
    }

    /// Sets one cell of the drum grid. A place no grid could have is refused.
    pub fn set_drum_cell(&mut self, step: usize, pad: usize, cell: Cell) -> (sent: bool)
        requires
            old(self).wf(),
        ensures
            byte(step) && byte(pad) ==> old(self).after_sending(
                Event::SetDrumCell { step: step as u8, pad: pad as u8, cell },
                sent,
                *final(self),
            ),
            !(byte(step) && byte(pad)) ==> !sent && *final(self) == *old(self),
    {
        if step > 255 || pad > 255 {
            return false;
        }
        self.send(Event::SetDrumCell { step: step as u8, pad: pad as u8, cell })
    }

    /// Turns one cell of the drum grid on or off, keeping its velocity.
    pub fn toggle_drum_cell(&mut self, step: usize, pad: usize) -> (sent: bool)
        requires
            old(self).wf(),
        ensures
            byte(step) && byte(pad) ==> old(self).after_sending(
                Event::SetDrumCell {
                    step: step as u8,
                    pad: pad as u8,
                    cell: flipped(
                        mirrored_cell(old(self).params.drum_grid@, step as int, pad as int),
                    ),
                },
                sent,
                *final(self),
            ),
            !(byte(step) && byte(pad)) ==> !sent && *final(self) == *old(self),
    {
        let mut cell: Cell = if step < MAX_STEPS && pad < 8 {
            self.params.read_drum_column(step)[pad]
        } else {
            Cell::default()
        };
        cell.active = !cell.active;
        self.set_drum_cell(step, pad, cell)
    }
}

/// A step as a mirror shows it; a blank one outside it.
pub open spec fn mirrored_step(mirror: Seq<u32>, index: int) -> Step {
    if index < MAX_STEPS {
        params::unpacked_step(mirror[index])
    } else {
        Step::blank()
    }
}

/// A cell as the grid's mirror shows it; a blank one outside it.
pub open spec fn mirrored_cell(mirror: Seq<u32>, step: int, pad: int) -> Cell {
    if step < MAX_STEPS && pad < 8 {
        pattern::nibble_cell(pattern::digit(mirror[step] as int, pad as nat))
    } else {
        Cell::blank()
    }
}

/// A step turned on or off.
pub open spec fn switched(s: Step) -> Step {
    Step { active: !s.active, ..s }
}

/// A step tied or untied.
pub open spec fn tied(s: Step) -> Step {
    Step { slide: !s.slide, ..s }
}

/// A step accented or not.
pub open spec fn accented(s: Step) -> Step {
    Step { accent: !s.accent, ..s }
}

/// A cell turned on or off.
pub open spec fn flipped(c: Cell) -> Cell {
    Cell { active: !c.active, ..c }
}

/// What the audio thread reports back, refreshed once a frame.
///
/// Two systems reading the words directly could see different steps in the same
/// frame and disagree about which beat it is.
#[derive(Debug, Clone, Copy, PartialEq, Eq, Structural)]
pub struct SynthTelemetry {
    /// Sequencer step currently playing.
    pub current_step: u32,
    /// Whether the step changed this frame. The cue for beat-synced visuals.
    pub step_changed: bool,
    /// Drum step currently playing.
    pub drum_step: u32,
    /// Bass step currently playing.
    pub bass_step: u32,
    /// How many voices are sounding.
    pub active_voices: u32,
    /// Peak output level since the last frame, `0.0..=1.0`.
    pub peak: Single,
    /// What each compressor is taking off right now, in decibels.
    pub comp_synth_gr: Single,
    pub comp_master_gr: Single,
    pub comp_bass_gr: Single,
}

impl Default for SynthTelemetry {
    fn default() -> (t: SynthTelemetry)
        ensures
            t.current_step == 0 && !t.step_changed && t.drum_step == 0 && t.bass_step == 0,
            t.active_voices == 0,
            t.peak == of(0),
            t.comp_synth_gr == of(0) && t.comp_master_gr == of(0) && t.comp_bass_gr == of(0),
    {
        SynthTelemetry {
            current_step: 0,
            step_changed: false,
            drum_step: 0,
            bass_step: 0,
            active_voices: 0,
            peak: of(0),
            comp_synth_gr: of(0),
            comp_master_gr: of(0),
            comp_bass_gr: of(0),
        }
    }
}

impl SynthTelemetry {
    /// Reads a frame's report. Reading the peak resets the meter, so each frame
    /// reports the peak since the last one rather than an all-time high.
    pub fn read_telemetry(&mut self, params: &mut SharedParams)
        ensures
            *final(self) == (SynthTelemetry {
                current_step: old(params).current_step,
                step_changed: old(params).current_step != old(self).current_step,
                drum_step: old(params).drum_position,
                bass_step: old(params).bass_step,
                active_voices: old(params).active_voices,
                peak: old(params).output_peak@,
                comp_synth_gr: old(params).comp_synth_gr@,
                comp_master_gr: old(params).comp_master_gr@,
                comp_bass_gr: old(params).comp_bass_gr@,
            }),
            final(params).output_peak@ == of(0),
            *final(params) == (SharedParams {
                output_peak: final(params).output_peak,
                ..*old(params)
            }),
    {
        let step: u32 = params.current_step;
        self.step_changed = step != self.current_step;
        self.current_step = step;
        self.drum_step = params.drum_position;
        self.bass_step = params.bass_step;
        self.active_voices = params.active_voices;
        self.peak = params.take_peak();
        self.comp_synth_gr = params.comp_synth_gr.get();
        self.comp_master_gr = params.comp_master_gr.get();
        self.comp_bass_gr = params.comp_bass_gr.get();
    }

    /// Whether a listener should be told of the beat: once per step, downbeats
    /// only.
    pub fn is_downbeat(&self) -> (yes: bool)
        ensures
            yes == (self.step_changed && self.current_step % 4 == 0),
    {
        self.step_changed && self.current_step % 4 == 0
    }
}

/// Toggling a step twice gives it back, its note and velocity included.
pub proof fn law_a_step_toggled_twice_comes_back(s: Step)
    ensures
        switched(switched(s)) == s,
        tied(tied(s)) == s,
        accented(accented(s)) == s,
        switched(s).note == s.note && switched(s).velocity == s.velocity,
{
}

} // verus!
