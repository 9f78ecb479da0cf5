//! The engine's deciding half: voice allocation, event handling, and what the
//! sequencers start and stop.
//!
//! Polyphony is not just "grab a free voice". The interesting cases are what
//! happens when there is no free voice, and what mono mode does when notes
//! overlap; both are what make a synth feel like an instrument rather than a
//! sample player.

use crate::clock;
use crate::clock::{Advance, Clock, ClockView};
use crate::drums::pad::PAD_COUNT;
use crate::drums::pattern;
use crate::drums::pattern::{Cell, Column, DrumGrid, DrumPattern};
use crate::drums::rack;
use crate::drums::rack::{DrumRack, RackModel};
use crate::drums::sequencer::DrumModel;
use crate::event::{Event, EventQueue};
use crate::order::Order;
use crate::params;
use crate::params::{of, ClockSource, Params, SharedParams, VoiceMode, MAX_VOICES};
use crate::rng;
use crate::sequencer::{
    GenerativeSettings,
    SeqModel,
    SeqOutput,
    SeqSettings,
    Sequencer,
    Step,
    MAX_STEPS,
};
use crate::single::Single;
use crate::voice;
use crate::voice::Voice;
use vstd::prelude::*;

verus! {

/// The most notes that can be physically held at once.
pub const MAX_HELD: usize = 128;

/// What each compressor takes off, in decibels.
#[derive(Debug, Clone, Copy)]
pub struct Reductions {
    pub synth: Single,
    pub master: Single,
    pub bass: Single,
}

/// The control half of the synthesizer.
pub struct Engine {
    pub sample_rate: Single,
    pub voices: [Voice; MAX_VOICES],
    /// Notes currently held on the keyboard, oldest first. Mono mode falls back
    /// through this when a note is released, which is what lets you trill by
    /// holding one note and tapping another.
    pub held: Vec<u8>,
    /// Goes up on every note-on; the lowest value is the oldest voice.
    pub age_counter: u64,
    pub sequencer: Sequencer,
    /// The bass line: a second sequencer rather than a second channel.
    pub bass_seq: Sequencer,
    pub drums: DrumRack,
    /// The one clock. Every sequencer reads the same advance from it, which is
    /// what makes "in sync" a property of the structure.
    pub clock: Clock,
    pub last_voice_mode: VoiceMode,
    pub last_melody_enabled: bool,
    pub last_regenerate: u32,
    pub last_bass_regenerate: u32,
    pub last_pattern_request: u32,
    /// What the sound sources still have to carry out, oldest first.
    pub orders: Vec<Order>,
    /// Event sources, drained in order every block.
    ///
    /// Several rather than one because the sources are genuinely independent:
    /// one thread pushes note and parameter events, a MIDI thread pushes
    /// keyboard and clock events on its own timing.
    pub events: Vec<EventQueue>,
}

/// The state of the engine.
#[verifier::ext_equal]
pub struct EngineModel {
    pub voices: Seq<Voice>,
    pub held: Seq<u8>,
    pub age: u64,
    pub melody: SeqModel,
    pub bass: SeqModel,
    pub drums: RackModel,
    pub clock: Clock,
    pub last_voice_mode: VoiceMode,
    pub last_melody_enabled: bool,
    pub last_regenerate: u32,
    pub last_bass_regenerate: u32,
    pub last_pattern_request: u32,
    pub orders: Seq<Order>,
}

impl View for Engine {
    type V = EngineModel;

    open spec fn view(&self) -> EngineModel {
        EngineModel {
            voices: self.voices@,
            held: self.held@,
            age: self.age_counter,
            melody: self.sequencer@,
            bass: self.bass_seq@,
            drums: self.drums@,
            clock: self.clock,
            last_voice_mode: self.last_voice_mode,
            last_melody_enabled: self.last_melody_enabled,
            last_regenerate: self.last_regenerate,
            last_bass_regenerate: self.last_bass_regenerate,
            last_pattern_request: self.last_pattern_request,
            orders: self.orders@,
        }
    }
}

/// The first voice from `i` on, below `limit`, whose key holds a note.
pub open spec fn first_holding(voices: Seq<Voice>, note: u8, i: int, limit: int) -> Option<int>
    decreases limit - i,
{
    if i >= limit {
        None
    } else if voices[i].gate && voices[i].note == note {
        Some(i)
    } else {
        first_holding(voices, note, i + 1, limit)
    }
}

/// The first free voice from `i` on, below `limit`.
pub open spec fn first_free(voices: Seq<Voice>, i: int, limit: int) -> Option<int>
    decreases limit - i,
{
    if i >= limit {
        None
    } else if !voices[i].active() {
        Some(i)
    } else {
        first_free(voices, i + 1, limit)
    }
}

/// Whether a voice can be stolen at all: one in its release needs a level to
/// compare.
pub open spec fn stealable(v: Voice) -> bool {
    v.held() || v.level.below(of(0x7F7F_FFFF))
}

/// Whether one voice is missed less than another: a releasing one less than a
/// held one, the quieter of two releasing ones, the older of two held ones.
pub open spec fn missed_less(a: Voice, b: Voice) -> bool {
    if a.held() {
        b.held() && a.age < b.age
    } else {
        b.held() || a.level.below(b.level)
    }
}

/// The voice to steal among the first `n`: the one missed least, and the first
/// of several such.
pub open spec fn victim(voices: Seq<Voice>, n: int) -> Option<int>
    decreases n,
{
    if n <= 0 {
        None
    } else {
        let best = victim(voices, n - 1);
        let v = voices[n - 1];
        if !stealable(v) {
            best
        } else {
            match best {
                Some(b) => if missed_less(v, voices[b]) {
                    Some(n - 1)
                } else {
                    Some(b)
                },
                None => Some(n - 1),
            }
        }
    }
}

/// How many voices may sound.
pub open spec fn voice_limit(p: Params) -> int {
    if p.max_voices < 1 {
        1
    } else if p.max_voices > MAX_VOICES {
        MAX_VOICES as int
    } else {
        p.max_voices as int
    }
}

impl EngineModel {
    pub open spec fn wf(self) -> bool {
        &&& self.voices.len() == MAX_VOICES
        &&& self.melody.wf()
        &&& self.bass.wf()
        &&& self.drums.wf()
        &&& self.held.len() <= MAX_HELD
        &&& self.held.no_duplicates()
    }

    /// An order given.
    pub open spec fn ordered(self, o: Order) -> EngineModel {
        EngineModel { orders: self.orders.push(o), ..self }
    }

    /// The next note-on's age.
    pub open spec fn aged(self) -> EngineModel {
        EngineModel { age: self.age.wrapping_add(1), ..self }
    }

    /// A note started on a voice from silence, at the present age.
    pub open spec fn voice_started(
        self,
        i: int,
        note: u8,
        velocity: Single,
        glide_from: Option<u8>,
    ) -> EngineModel {
        EngineModel {
            voices: self.voices.update(i, self.voices[i].started(note, velocity, self.age)),
            ..self
        }.ordered(
            Order::StartVoice {
                voice: i as usize,
                note,
                velocity: voice::unit_velocity(velocity),
                glide_from,
            },
        )
    }

    /// A sounding voice slid to another note without restarting.
    pub open spec fn voice_retuned(self, i: int, note: u8, velocity: Single) -> EngineModel {
        EngineModel {
            voices: self.voices.update(i, Voice { note, velocity, ..self.voices[i] }),
            ..self
        }.ordered(Order::RetuneVoice { voice: i as usize, note, velocity })
    }

    /// A voice's key let go.
    pub open spec fn voice_released(self, i: int) -> EngineModel {
        EngineModel { voices: self.voices.update(i, self.voices[i].released()), ..self }.ordered(
            Order::ReleaseVoice { voice: i as usize },
        )
    }

    /// A voice cut dead.
    pub open spec fn voice_killed(self, i: int) -> EngineModel {
        EngineModel { voices: self.voices.update(i, self.voices[i].killed()), ..self }.ordered(
            Order::KillVoice { voice: i as usize },
        )
    }

    /// A voice taken for another note.
    pub open spec fn voice_stolen(self, i: int, note: u8, velocity: Single) -> EngineModel {
        EngineModel {
            voices: self.voices.update(i, self.voices[i].stolen(note, velocity, self.age)),
            ..self
        }.ordered(Order::StealVoice { voice: i as usize, note, velocity })
    }

    /// Mono, a key pressed: last-note priority. If legato is on and a note is
    /// held, the voice slides over; otherwise it starts afresh, gliding if asked.
    pub open spec fn mono_on(self, note: u8, velocity: Single, p: Params) -> EngineModel {
        let v = self.voices[0];
        if p.legato && v.held() {
            self.voice_retuned(0, note, voice::unit_velocity(velocity))
        } else {
            self.aged().voice_started(
                0,
                note,
                velocity,
                if of(0).below(p.glide) && v.active() {
                    Some(v.note)
                } else {
                    None
                },
            )
        }
    }

    /// Mono, a key let go: nothing, if it was not the sounding one and others
    /// are held; else back to the last key still held; else silence.
    pub open spec fn mono_off(self, note: u8, p: Params) -> EngineModel {
        let v = self.voices[0];
        if v.note != note && self.held.len() > 0 {
            self
        } else if self.held.len() > 0 {
            let previous = self.held.last();
            if p.legato {
                self.voice_retuned(0, previous, v.velocity)
            } else {
                self.aged().voice_started(0, previous, v.velocity, Some(v.note))
            }
        } else {
            self.voice_released(0)
        }
    }

    /// Poly, a key pressed: the voice that already holds the note, else a free
    /// one, else the one missed least.
    pub open spec fn poly_on(self, note: u8, velocity: Single, p: Params) -> EngineModel {
        let limit = voice_limit(p);
        let now = self.aged();
        match first_holding(self.voices, note, 0, limit) {
            Some(i) => now.voice_started(i, note, velocity, None),
            None => match first_free(self.voices, 0, limit) {
                Some(i) => now.voice_started(i, note, velocity, None),
                None => match victim(self.voices, limit) {
                    Some(i) => now.voice_stolen(i, note, velocity),
                    None => now,
                },
            },
        }
    }

    /// Poly, a key let go: every one of the first `n` voices that holds it is
    /// released.
    pub open spec fn poly_off(self, note: u8, n: int) -> EngineModel
        decreases n,
    {
        if n <= 0 {
            self
        } else {
            let before = self.poly_off(note, n - 1);
            let v = self.voices[n - 1];
            if v.gate && v.note == note {
                before.voice_released(n - 1)
            } else {
                before
            }
        }
    }

    /// A note started.
    pub open spec fn noted_on(self, note: u8, velocity: Single, p: Params) -> EngineModel {
        match p.voice_mode {
            VoiceMode::Mono => self.mono_on(note, velocity, p),
            VoiceMode::Poly => self.poly_on(note, velocity, p),
        }
    }

    /// A note ended.
    pub open spec fn noted_off(self, note: u8, p: Params) -> EngineModel {
        match p.voice_mode {
            VoiceMode::Mono => self.mono_off(note, p),
            VoiceMode::Poly => self.poly_off(note, MAX_VOICES as int),
        }
    }

    /// A note ended, if there is one.
    pub open spec fn maybe_off(self, note: Option<u8>, p: Params) -> EngineModel {
        match note {
            Some(n) => self.noted_off(n, p),
            None => self,
        }
    }

    /// A key added to those held, once, while there is room.
    pub open spec fn remembered(self, note: u8) -> EngineModel {
        if self.held.contains(note) || self.held.len() >= MAX_HELD {
            self
        } else {
            EngineModel { held: self.held.push(note), ..self }
        }
    }

    /// A key taken from those held.
    pub open spec fn forgotten(self, note: u8) -> EngineModel {
        if self.held.contains(note) {
            EngineModel { held: self.held.remove(self.held.index_of(note)), ..self }
        } else {
            self
        }
    }

    /// The first `n` voices cut or let go.
    pub open spec fn all_voices(self, hard: bool, n: int) -> EngineModel
        decreases n,
    {
        if n <= 0 {
            self
        } else {
            let before = self.all_voices(hard, n - 1);
            if hard {
                before.voice_killed(n - 1)
            } else {
                before.voice_released(n - 1)
            }
        }
    }

    /// The drums cut dead.
    pub open spec fn drums_cut(self) -> EngineModel {
        EngineModel {
            orders: self.orders + rack::silence_orders(PAD_COUNT as int),
            ..self
        }
    }

    /// The bass line let go, and the bass cut dead.
    pub open spec fn bass_cut(self) -> EngineModel {
        EngineModel {
            bass: SeqModel { pending: None, sounding: None, ..self.bass },
            ..self
        }.ordered(Order::SilenceBass)
    }

    /// Everything let go, or everything cut.
    pub open spec fn silenced(self, hard: bool) -> EngineModel {
        let quiet = EngineModel { held: Seq::empty(), ..self }.all_voices(hard, MAX_VOICES as int);
        if hard {
            quiet.drums_cut().bass_cut()
        } else {
            quiet
        }
    }

    /// The melody's notes played, the old one ended first; nothing while it is
    /// muted.
    pub open spec fn melody_played(self, out: SeqOutput, p: Params) -> EngineModel {
        if p.melody_enabled {
            let ended = self.maybe_off(out.note_off, p);
            match out.note_on {
                Some(n) => ended.noted_on(n.0, n.1, p),
                None => ended,
            }
        } else {
            self
        }
    }

    /// The bass line's notes played: a tied note is not let go first.
    pub open spec fn bass_played(self, out: SeqOutput, p: Params) -> EngineModel {
        if p.bass_enabled {
            let ended = if out.note_off is Some && !out.slide {
                self.ordered(Order::ReleaseBass)
            } else {
                self
            };
            match out.note_on {
                Some(n) => ended.ordered(
                    Order::StartBass { note: n.0, accent: out.accent, slide: out.slide },
                ),
                None => ended,
            }
        } else {
            self
        }
    }

    /// The transport stopped: the sounding note ended, drums and bass cut.
    pub open spec fn halted(self, p: Params) -> EngineModel {
        let stopped = EngineModel {
            clock: Clock { running: false, ..self.clock },
            melody: SeqModel { pending: None, sounding: None, ..self.melody },
            ..self
        };
        stopped.maybe_off(self.melody.sounding, p).drums_cut().bass_cut()
    }
}

impl Engine {
    pub open spec fn wf(self) -> bool {
        &&& self@.wf()
        &&& self.sequencer.wf()
        &&& self.bass_seq.wf()
        &&& self.drums.wf()
        &&& forall|i: int| 0 <= i < self.events@.len() ==> (#[trigger] self.events@[i]).wf()
    }

    /// Whether nothing but the voices, the age and the orders may differ.
    pub open spec fn same_but_voices(self, other: Engine) -> bool {
        &&& self.sample_rate == other.sample_rate
        &&& self.held == other.held
        &&& self.sequencer == other.sequencer
        &&& self.bass_seq == other.bass_seq
        &&& self.drums == other.drums
        &&& self.clock == other.clock
        &&& self.last_voice_mode == other.last_voice_mode
        &&& self.last_melody_enabled == other.last_melody_enabled
        &&& self.last_regenerate == other.last_regenerate
        &&& self.last_bass_regenerate == other.last_bass_regenerate
        &&& self.last_pattern_request == other.last_pattern_request
        &&& self.events == other.events
    }

    fn start_voice(&mut self, i: usize, note: u8, velocity: Single, glide_from: Option<u8>)
        requires
            i < MAX_VOICES,
        ensures
            final(self)@ == old(self)@.voice_started(i as int, note, velocity, glide_from),
            final(self).same_but_voices(*old(self)),
    {
        let age: u64 = self.age_counter;
        self.voices[i].note_on(note, velocity, age);
        let unit: Single = self.voices[i].velocity;
        self.orders.push(Order::StartVoice { voice: i, note, velocity: unit, glide_from });
        assert(self@.voices =~= old(self)@.voice_started(i as int, note, velocity, glide_from).voices);
    }

    fn retune_voice(&mut self, i: usize, note: u8, velocity: Single)
        requires
            i < MAX_VOICES,
        ensures
            final(self)@ == old(self)@.voice_retuned(i as int, note, velocity),
            final(self).same_but_voices(*old(self)),
    {
        self.voices[i].set_target_note(note);
        self.voices[i].velocity = velocity;
        self.orders.push(Order::RetuneVoice { voice: i, note, velocity });
        assert(self@.voices =~= old(self)@.voice_retuned(i as int, note, velocity).voices);
    }

    fn release_voice(&mut self, i: usize)
        requires
            i < MAX_VOICES,
        ensures
            final(self)@ == old(self)@.voice_released(i as int),
            final(self).same_but_voices(*old(self)),
    {
        self.voices[i].note_off();
        self.orders.push(Order::ReleaseVoice { voice: i });
        assert(self@.voices =~= old(self)@.voice_released(i as int).voices);
    }

    fn kill_voice(&mut self, i: usize)
        requires
            i < MAX_VOICES,
        ensures
            final(self)@ == old(self)@.voice_killed(i as int),
            final(self).same_but_voices(*old(self)),
    {
        self.voices[i].kill();
        self.orders.push(Order::KillVoice { voice: i });
        assert(self@.voices =~= old(self)@.voice_killed(i as int).voices);
    }

    fn steal_voice(&mut self, i: usize, note: u8, velocity: Single)
        requires
            i < MAX_VOICES,
        ensures
            final(self)@ == old(self)@.voice_stolen(i as int, note, velocity),
            final(self).same_but_voices(*old(self)),
    {
        let age: u64 = self.age_counter;
        self.voices[i].steal(note, velocity, age);
        self.orders.push(Order::StealVoice { voice: i, note, velocity });
        assert(self@.voices =~= old(self)@.voice_stolen(i as int, note, velocity).voices);
    }

    /// Starts a note.
    pub fn note_on(&mut self, note: u8, velocity: Single, params: &Params)
        requires
            old(self).wf(),
        ensures
            final(self).wf(),
            final(self).events == old(self).events,
            final(self)@ == old(self)@.noted_on(note, velocity, *params),
            final(self).same_but_voices(*old(self)),
    {
        match params.voice_mode {
            VoiceMode::Mono => self.mono_note_on(note, velocity, params),
            VoiceMode::Poly => self.poly_note_on(note, velocity, params),
        }
    }

    /// Ends a note.
    pub fn note_off(&mut self, note: u8, params: &Params)
        requires
            old(self).wf(),
        ensures
            final(self).wf(),
            final(self).events == old(self).events,
            final(self)@ == old(self)@.noted_off(note, *params),
            final(self).same_but_voices(*old(self)),
    {
        match params.voice_mode {
            VoiceMode::Mono => self.mono_note_off(note, params),
            VoiceMode::Poly => {
                let mut i: usize = 0;
                while i < MAX_VOICES
                    invariant
                        i <= 32,
                        old(self).wf(),
                        self.same_but_voices(*old(self)),
                        self@ == old(self)@.poly_off(note, i as int),
                        self@.voices.len() == 32,
                        forall|k: int|
                            i <= k < 32 ==> #[trigger] self@.voices[k] == old(self)@.voices[k],
                    decreases 32 - i,
                {
                    if self.voices[i].gate && self.voices[i].note == note {
                        self.release_voice(i);
                    }
                    i = i + 1;
                }
            },
        }
    }

    /// Mono: one voice, last-note priority, with fallback.
    ///
    /// Releasing a note while another is still held returns to that held note
    /// rather than going silent. That is what makes mono basslines playable:
    /// trills and hammer-ons come from it directly.
    fn mono_note_on(&mut self, note: u8, velocity: Single, params: &Params)
        requires
            old(self).wf(),
        ensures
            final(self).wf(),
            final(self).events == old(self).events,
            final(self)@ == old(self)@.mono_on(note, velocity, *params),
            final(self).same_but_voices(*old(self)),
    {
        let v: Voice = self.voices[0];
        if params.legato && v.is_held() {
            self.retune_voice(0, note, velocity.clamp(of(0), of(0x3F80_0000)));
        } else {
            let glide_from: Option<u8> = if of(0).lt(params.glide) && v.is_active() {
                Some(v.note)
            } else {
                None
            };
            self.age_counter = self.age_counter.wrapping_add(1);
            self.start_voice(0, note, velocity, glide_from);
        }
    }

    fn mono_note_off(&mut self, note: u8, params: &Params)
        requires
            old(self).wf(),
        ensures
            final(self).wf(),
            final(self).events == old(self).events,
            final(self)@ == old(self)@.mono_off(note, *params),
            final(self).same_but_voices(*old(self)),
    {
        let sounding: u8 = self.voices[0].note;
        let velocity: Single = self.voices[0].velocity;
        if sounding != note && self.held.len() > 0 {
            // A note other than the sounding one was released. Nothing to do.
            return ;
        }
        // Fall back to the most recently pressed note still held.
        if self.held.len() > 0 {
            let previous: u8 = self.held[self.held.len() - 1];
            if params.legato {
                self.retune_voice(0, previous, velocity);
            } else {
                self.age_counter = self.age_counter.wrapping_add(1);
                self.start_voice(0, previous, velocity, Some(sounding));
            }
        } else {
            self.release_voice(0);
        }
    }

    fn poly_note_on(&mut self, note: u8, velocity: Single, params: &Params)
        requires
            old(self).wf(),
        ensures
            final(self).wf(),
            final(self).events == old(self).events,
            final(self)@ == old(self)@.poly_on(note, velocity, *params),
            final(self).same_but_voices(*old(self)),
    {
        let limit: usize = if params.max_voices < 1 {
            1
        } else if params.max_voices > MAX_VOICES {
            MAX_VOICES
        } else {
            params.max_voices
        };
        self.age_counter = self.age_counter.wrapping_add(1);
        let ghost now = self@;
        // Retrigger a voice already holding this note rather than stacking a
        // second one on top: that would double the volume of repeated notes.
        let mut i: usize = 0;
        while i < limit
            invariant
                i <= limit <= 32,
                limit == voice_limit(*params),
                old(self).wf(),
                self.same_but_voices(*old(self)),
                self@ == now,
                now == old(self)@.aged(),
                first_holding(old(self)@.voices, note, 0, limit as int) == first_holding(
                    old(self)@.voices,
                    note,
                    i as int,
                    limit as int,
                ),
            decreases limit - i,
        {
            if self.voices[i].gate && self.voices[i].note == note {
                self.start_voice(i, note, velocity, None);
                return ;
            }
            i = i + 1;
        }
        // A genuinely free voice is always the best choice.
        let mut j: usize = 0;
        while j < limit
            invariant
                j <= limit <= 32,
                limit == voice_limit(*params),
                old(self).wf(),
                self.same_but_voices(*old(self)),
                self@ == now,
                now == old(self)@.aged(),
                first_holding(old(self)@.voices, note, 0, limit as int) is None,
                first_free(old(self)@.voices, 0, limit as int) == first_free(
                    old(self)@.voices,
                    j as int,
                    limit as int,
                ),
            decreases limit - j,
        {
            if !self.voices[j].is_active() {
                self.start_voice(j, note, velocity, None);
                return ;
            }
            j = j + 1;
        }
        // Out of voices: steal one. Prefer a voice in its release tail, which
        // the listener has already stopped attending to, and among those the
        // quietest. Only if every voice is still held take the oldest.
        let best: Option<usize> = self.find_victim(limit);
        match best {
            Some(b) => self.steal_voice(b, note, velocity),
            None => {},
        }
    }

    fn find_victim(&self, limit: usize) -> (best: Option<usize>)
        requires
            limit <= MAX_VOICES,
        ensures
            best matches Some(b) ==> b < limit && victim(self@.voices, limit as int) == Some(
                b as int,
            ),
            best is None ==> victim(self@.voices, limit as int) is None,
    {
        let mut best: Option<usize> = None;
        let mut i: usize = 0;
        while i < limit
            invariant
                i <= limit <= 32,
                best matches Some(b) ==> b < i && victim(self@.voices, i as int) == Some(b as int),
                best is None ==> victim(self@.voices, i as int) is None,
            decreases limit - i,
        {
            let v: Voice = self.voices[i];
            if v.is_held() || v.level.lt(of(0x7F7F_FFFF)) {
                match best {
                    Some(b) => {
                        let rival: Voice = self.voices[b];
                        let less: bool = if v.is_held() {
                            rival.is_held() && v.age < rival.age
                        } else {
                            rival.is_held() || v.level.lt(rival.level)
                        };
                        if less {
                            best = Some(i);
                        }
                    },
                    None => {
                        best = Some(i);
                    },
                }
            }
            i = i + 1;
        }
        best
    }

    /// Lets everything go, or cuts everything dead.
    pub fn all_notes_off(&mut self, hard: bool)
        requires
            old(self).wf(),
        ensures
            final(self).wf(),
            final(self).events == old(self).events,
            final(self)@ == old(self)@.silenced(hard),
            final(self).sample_rate == old(self).sample_rate,
    {
        self.held.clear();
        let ghost start = EngineModel { held: Seq::empty(), ..old(self)@ };
        assert(self@ =~= start);
        let mut i: usize = 0;
        while i < MAX_VOICES
            invariant
                i <= 32,
                self@ == start.all_voices(hard, i as int),
                self@.voices.len() == 32,
                self.wf(),
                self.sample_rate == old(self).sample_rate,
                self.drums == old(self).drums,
                self.bass_seq == old(self).bass_seq,
                self.events == old(self).events,
            decreases 32 - i,
        {
            if hard {
                self.kill_voice(i);
            } else {
                self.release_voice(i);
            }
            i = i + 1;
        }
        if hard {
            self.silence_drums();
            self.silence_bass();
        }
    }

    fn silence_drums(&mut self)
        requires
            old(self).wf(),
        ensures
            final(self).wf(),
            final(self).events == old(self).events,
            final(self)@ == old(self)@.drums_cut(),
            final(self).same_but_voices(*old(self)),
    {
        self.drums.silence(&mut self.orders);
    }

    /// The bass envelope sustains for ever, so nothing else would end a note
    /// that is gated on when the transport stops.
    fn silence_bass(&mut self)
        requires
            old(self).wf(),
        ensures
            final(self).wf(),
            final(self).events == old(self).events,
            final(self)@ == old(self)@.bass_cut(),
            final(self).sample_rate == old(self).sample_rate,
    {
        let note: Option<u8> = self.bass_seq.release_all();
        self.orders.push(Order::SilenceBass);
    }

    /// Adds a key to those held. Never grows past the room there is: 128 is
    /// every MIDI note at once.
    pub fn remember_held(&mut self, note: u8)
        requires
            old(self).wf(),
        ensures
            final(self).wf(),
            final(self).events == old(self).events,
            final(self)@ == old(self)@.remembered(note),
            final(self).sample_rate == old(self).sample_rate,
    {
        if self.is_key_held(note).is_some() {
            return ;
        }
        if self.held.len() < MAX_HELD {
            self.held.push(note);
            assert(self@ =~= old(self)@.remembered(note));
        }
    }

    /// Takes a key from those held.
    pub fn forget_held(&mut self, note: u8)
        requires
            old(self).wf(),
        ensures
            final(self).wf(),
            final(self).events == old(self).events,
            final(self)@ == old(self)@.forgotten(note),
            final(self).sample_rate == old(self).sample_rate,
    {
        match self.is_key_held(note) {
            Some(i) => {
                let gone: u8 = self.held.remove(i);
                proof {
                    let h = old(self)@.held;
                    let j = h.index_of(note);
                    assert(h[j] == note);
                    assert(i == j);
                    assert(self@ =~= old(self)@.forgotten(note));
                }
            },
            None => {},
        }
    }

    fn is_key_held(&self, note: u8) -> (at: Option<usize>)
        ensures
            at matches Some(i) ==> i < self@.held.len() && self@.held[i as int] == note,
            at is None ==> !self@.held.contains(note),
    {
        let mut i: usize = 0;
        while i < self.held.len()
            invariant
                i <= self@.held.len(),
                forall|k: int| 0 <= k < i ==> #[trigger] self@.held[k] != note,
            decreases self@.held.len() - i,
        {
            if self.held[i] == note {
                return Some(i);
            }
            i = i + 1;
        }
        None
    }
}

/// The words of the shared block that the engine reads or writes while it plays.
#[verifier::ext_equal]
pub struct Wire {
    pub pitch_bend: Single,
    pub mod_wheel: Single,
    pub playing: bool,
    pub seq_length: u32,
    pub bass_seq_length: u32,
    pub pattern: Seq<u32>,
    pub pattern_len: u32,
    pub bass_pattern: Seq<u32>,
    pub bass_pattern_len: u32,
    pub drum_grid: Seq<u32>,
    pub drum_grid_len: u32,
    pub gen_seed: u64,
    pub bass_gen_seed: u64,
    pub gen_regenerate: u32,
    pub bass_regenerate: u32,
    pub pending_request: u32,
    pub pending_length: u32,
    pub pending_pattern: Seq<u32>,
}

/// The words of a shared block that the engine touches.
pub open spec fn wire(s: SharedParams) -> Wire {
    Wire {
        pitch_bend: s.pitch_bend@,
        mod_wheel: s.mod_wheel@,
        playing: s.seq_playing@,
        seq_length: s.seq_length@,
        bass_seq_length: s.bass_seq_length@,
        pattern: s.pattern@,
        pattern_len: s.pattern_len,
        bass_pattern: s.bass_pattern@,
        bass_pattern_len: s.bass_pattern_len,
        drum_grid: s.drum_grid@,
        drum_grid_len: s.drum_grid_len,
        gen_seed: s.gen_seed,
        bass_gen_seed: s.bass_gen_seed,
        gen_regenerate: s.gen_regenerate,
        bass_regenerate: s.bass_regenerate,
        pending_request: s.pending_request,
        pending_length: s.pending_length,
        pending_pattern: s.pending_pattern@,
    }
}

/// Whether two blocks differ in nothing but what the engine writes while it
/// plays: wheels, transport, lengths and mirrors.
pub open spec fn same_knobs(a: SharedParams, b: SharedParams) -> bool {
    b == (SharedParams {
        pitch_bend: b.pitch_bend,
        mod_wheel: b.mod_wheel,
        seq_playing: b.seq_playing,
        seq_length: b.seq_length,
        bass_seq_length: b.bass_seq_length,
        pattern: b.pattern,
        pattern_len: b.pattern_len,
        bass_pattern: b.bass_pattern,
        bass_pattern_len: b.bass_pattern_len,
        drum_grid: b.drum_grid,
        drum_grid_len: b.drum_grid_len,
        ..a
    })
}

/// A mirror with the first `len` steps of a pattern published into it.
pub open spec fn mirrored(words: Seq<u32>, pattern: Seq<Step>, len: int) -> Seq<u32> {
    Seq::new(
        MAX_STEPS as nat,
        |i: int|
            if i < len {
                params::packed_step(pattern[i]) as u32
            } else {
                words[i]
            },
    )
}

impl Wire {
    /// The melody published.
    pub open spec fn with_melody(self, m: SeqModel) -> Wire {
        Wire {
            pattern: mirrored(self.pattern, m.pattern, m.length),
            pattern_len: m.length as u32,
            ..self
        }
    }

    /// The bass line published.
    pub open spec fn with_bass(self, m: SeqModel) -> Wire {
        Wire {
            bass_pattern: mirrored(self.bass_pattern, m.pattern, m.length),
            bass_pattern_len: m.length as u32,
            ..self
        }
    }

    /// The drum grid published, every column of it.
    pub open spec fn with_drums(self, g: DrumGrid) -> Wire {
        Wire {
            drum_grid: Seq::new(
                MAX_STEPS as nat,
                |i: int| pattern::packed(g.cells[i]) as u32,
            ),
            drum_grid_len: g.len as u32,
            ..self
        }
    }

    /// The staged pattern.
    pub open spec fn staged(self) -> Seq<Step> {
        Seq::new(
            params::counted(self.pending_length as int, 1, MAX_STEPS as int) as nat,
            |i: int| params::unpacked_step(self.pending_pattern[i]),
        )
    }
}

/// The engine and the words it shares.
#[verifier::ext_equal]
pub struct Desk {
    pub engine: EngineModel,
    pub wire: Wire,
}

/// The register that a seed starts from.
pub open spec fn seeded(seed: u64) -> u64 {
    if seed == 0 {
        rng::SPARE_SEED
    } else {
        seed
    }
}

/// A line after a MIDI clock tick, on a step or not.
pub open spec fn tick_line(line: SeqModel, ticked: bool, s: SeqSettings, clock: ClockView) -> (
    SeqModel,
    SeqOutput,
) {
    if ticked {
        line.stepped(s, clock, SeqOutput::nothing())
    } else {
        (line, SeqOutput::nothing())
    }
}

impl EngineModel {
    /// Whether a MIDI clock tick counts: only a running external clock counts it.
    pub open spec fn tick_counts(self, p: Params) -> bool {
        p.clock_source == ClockSource::ExternalMidi && self.clock.running
    }

    /// Whether a MIDI clock tick falls on a step.
    pub open spec fn tick_steps(self, p: Params) -> bool {
        self.tick_counts(p) && self.clock.tick_steps(p.steps_per_beat)
    }

    /// The clock after a MIDI clock tick.
    pub open spec fn tick_clock(self, p: Params) -> Clock {
        if self.tick_counts(p) {
            self.clock.ticked(p.steps_per_beat)
        } else {
            self.clock
        }
    }

    /// The melody of a MIDI clock tick, on a step or not.
    #[verifier::opaque]
    pub open spec fn melody_ticked(self, ticked: bool, clock: ClockView, p: Params) -> EngineModel {
        let (melody, out) = tick_line(self.melody, ticked, SeqSettings::of_melody(p), clock);
        EngineModel { melody, ..self }.melody_played(out, p)
    }

    /// The bass line of a MIDI clock tick, on the same terms.
    #[verifier::opaque]
    pub open spec fn bass_ticked(self, ticked: bool, clock: ClockView, p: Params) -> EngineModel {
        let (bass, out) = tick_line(self.bass, ticked, SeqSettings::of_bass(p), clock);
        EngineModel { bass, ..self }.bass_played(out, p)
    }

    /// The drums of a MIDI clock tick.
    #[verifier::opaque]
    pub open spec fn drums_ticked(self, ticked: bool, clock: ClockView, p: Params) -> EngineModel {
        let (drums, orders) = self.drums.ticked(ticked, clock, p);
        EngineModel { drums, orders: self.orders + orders, ..self }
    }

    /// A MIDI clock tick. On a step, melody, bass and drums move on together, and
    /// a muted line moves unheard.
    pub open spec fn clock_ticked(self, p: Params) -> EngineModel {
        let ticked = self.tick_steps(p);
        let clock = self.tick_clock(p);
        let view = clock.seen();
        EngineModel { clock, ..self }.melody_ticked(ticked, view, p).bass_ticked(
            ticked,
            view,
            p,
        ).drums_ticked(ticked, view, p)
    }

    /// Both lines and the drums taken back to before their first step, and the
    /// clock started.
    pub open spec fn rewound(self) -> EngineModel {
        EngineModel {
            melody: SeqModel { position: None, pending: None, ..self.melody },
            drums: RackModel {
                drums: DrumModel { position: None, pending: None, ..self.drums.drums },
                ..self.drums
            },
            bass: SeqModel { position: None, pending: None, ..self.bass },
            clock: self.clock.started(),
            ..self
        }
    }

    /// A cell of the drum grid set.
    pub open spec fn cell_set(self, step: int, pad: int, cell: Cell) -> EngineModel {
        EngineModel {
            drums: RackModel {
                drums: DrumModel {
                    grid: self.drums.drums.grid.with_cell(step, pad, cell),
                    grid_changed: true,
                    ..self.drums.drums
                },
                ..self.drums
            },
            ..self
        }
    }
}

impl Desk {
    /// The engine changed, the words not.
    pub open spec fn with(self, engine: EngineModel) -> Desk {
        Desk { engine, wire: self.wire }
    }

    /// A fresh melody written from the shared seed, and published.
    pub open spec fn regenerated(self, p: Params) -> Desk {
        let melody = (SeqModel { rng: seeded(self.wire.gen_seed), ..self.engine.melody }).regenerated(
            GenerativeSettings::of_melody(p),
        );
        Desk {
            engine: EngineModel { melody, ..self.engine },
            wire: self.wire.with_melody(melody),
        }
    }

    /// A fresh bass line written from its own shared seed, and published.
    pub open spec fn bass_regenerated(self, p: Params) -> Desk {
        let bass = (SeqModel {
            rng: seeded(self.wire.bass_gen_seed),
            ..self.engine.bass
        }).regenerated(GenerativeSettings::of_bass(p));
        Desk { engine: EngineModel { bass, ..self.engine }, wire: self.wire.with_bass(bass) }
    }

    /// A step of the melody set, and the melody published.
    pub open spec fn step_set(self, index: int, step: Step) -> Desk {
        let melody = self.engine.melody.with_step(index, step);
        Desk {
            engine: EngineModel { melody, ..self.engine },
            wire: self.wire.with_melody(melody),
        }
    }

    /// A step of the bass line set, and the bass line published.
    pub open spec fn bass_step_set(self, index: int, step: Step) -> Desk {
        let bass = self.engine.bass.with_step(index, step);
        Desk { engine: EngineModel { bass, ..self.engine }, wire: self.wire.with_bass(bass) }
    }

    /// One event applied.
    #[verifier::opaque]
    pub open spec fn applied(self, event: Event, p: Params) -> Desk {
        let e = self.engine;
        match event {
            Event::NoteOn { note, velocity } => self.with(
                e.remembered(note).noted_on(note, velocity, p),
            ),
            Event::NoteOff { note } => self.with(e.forgotten(note).noted_off(note, p)),
            Event::AllNotesOff => self.with(e.silenced(false)),
            Event::Panic => self.with(e.silenced(true)),
            Event::PitchBend(semitones) => Desk {
                engine: e,
                wire: Wire { pitch_bend: semitones, ..self.wire },
            },
            Event::ModWheel(value) => Desk {
                engine: e,
                wire: Wire { mod_wheel: value, ..self.wire },
            },
            Event::ClockTick => self.with(e.clock_ticked(p)),
            Event::ClockStart => Desk {
                engine: e.rewound(),
                wire: Wire { playing: true, ..self.wire },
            },
            Event::ClockStop => Desk {
                engine: e.halted(p),
                wire: Wire { playing: false, ..self.wire },
            },
            Event::ClockContinue => Desk {
                engine: EngineModel { clock: Clock { running: true, ..e.clock }, ..e },
                wire: Wire { playing: true, ..self.wire },
            },
            Event::SetStep { index, step } => self.step_set(index as int, step),
            Event::Regenerate => self.regenerated(p),
            Event::SetBassStep { index, step } => self.bass_step_set(index as int, step),
            Event::RegenerateBass => self.bass_regenerated(p),
            Event::SetDrumCell { step, pad, cell } => self.with(
                e.cell_set(step as int, pad as int, cell),
            ),
        }
    }

    /// A fresh melody written, if its counter has moved.
    pub open spec fn melody_asked(self, p: Params) -> Desk {
        if self.wire.gen_regenerate != self.engine.last_regenerate {
            self.with(
                EngineModel { last_regenerate: self.wire.gen_regenerate, ..self.engine },
            ).regenerated(p)
        } else {
            self
        }
    }

    /// A fresh bass line written, if its counter has moved.
    pub open spec fn bass_asked(self, p: Params) -> Desk {
        if self.wire.bass_regenerate != self.engine.last_bass_regenerate {
            self.with(
                EngineModel { last_bass_regenerate: self.wire.bass_regenerate, ..self.engine },
            ).bass_regenerated(p)
        } else {
            self
        }
    }

    /// The staged pattern taken up, if its counter has moved.
    pub open spec fn pattern_asked(self) -> Desk {
        if self.wire.pending_request != self.engine.last_pattern_request {
            self.with(
                EngineModel {
                    last_pattern_request: self.wire.pending_request,
                    melody: SeqModel { queued: Some(self.wire.staged()), ..self.engine.melody },
                    ..self.engine
                },
            )
        } else {
            self
        }
    }

    /// The requests that travel by counter: a fresh melody, a fresh bass line, a
    /// staged pattern. Each counter that has moved is obeyed once.
    pub open spec fn requests_obeyed(self, p: Params) -> Desk {
        self.melody_asked(p).bass_asked(p).pattern_asked()
    }

    /// The transport brought in line with the shared flag.
    pub open spec fn transport_followed(self, p: Params) -> Desk {
        if self.wire.playing == self.engine.clock.running {
            self
        } else if self.wire.playing {
            self.with(EngineModel { clock: self.engine.clock.started(), ..self.engine })
        } else {
            self.with(self.engine.halted(p))
        }
    }
}

/// The engine and the words it shares, as they stand.
pub open spec fn desk(e: Engine, s: SharedParams) -> Desk {
    Desk { engine: e@, wire: wire(s) }
}

/// What the engine relies on in a block's parameters. Every snapshot has it.
pub open spec fn playable(p: Params) -> bool {
    &&& p.drum_length >= 1
    &&& GenerativeSettings::of_melody(p).fits()
    &&& GenerativeSettings::of_bass(p).fits()
}

/// Every setting in its range can be played.
pub proof fn law_settings_in_range_are_playable(p: Params)
    requires
        p.in_range(),
    ensures
        playable(p),
{
    crate::scale::lemma_offsets(p.gen_scale);
    let n = p.gen_scale.offsets().len() as int;
    assert(n * p.gen_range <= 60 && n * p.bass_gen_range <= 48) by (nonlinear_arith)
        requires
            0 <= n <= 12,
            0 <= p.gen_range <= 5,
            0 <= p.bass_gen_range <= 4,
    ;
}

impl Engine {
    /// Copies the pattern into the shared mirror so the control side can show
    /// it. Called only when the pattern changes, not every block.
    fn publish_pattern(&self, shared: &mut SharedParams)
        requires
            self.wf(),
        ensures
            wire(*final(shared)) == wire(*old(shared)).with_melody(self@.melody),
            same_knobs(*old(shared), *final(shared)),
    {
        let len: usize = self.sequencer.length;
        let mut i: usize = 0;
        while i < len
            invariant
                self.wf(),
                len == self.sequencer.length,
                i <= len,
                *shared == (SharedParams { pattern: shared.pattern, ..*old(shared) }),
                forall|k: int|
                    0 <= k < MAX_STEPS ==> #[trigger] shared.pattern@[k] == (if k < i {
                        params::packed_step(self@.melody.pattern[k]) as u32
                    } else {
                        old(shared).pattern@[k]
                    }),
            decreases len - i,
        {
            shared.publish_step(i, &self.sequencer.pattern[i]);
            i = i + 1;
        }
        shared.publish_len(len);
        assert(wire(*shared).pattern =~= wire(*old(shared)).with_melody(self@.melody).pattern);
    }

    /// Copies the bass line into its mirror, on the same terms.
    fn publish_bass_pattern(&self, shared: &mut SharedParams)
        requires
            self.wf(),
        ensures
            wire(*final(shared)) == wire(*old(shared)).with_bass(self@.bass),
            same_knobs(*old(shared), *final(shared)),
    {
        let len: usize = self.bass_seq.length;
        let mut i: usize = 0;
        while i < len
            invariant
                self.wf(),
                len == self.bass_seq.length,
                i <= len,
                *shared == (SharedParams { bass_pattern: shared.bass_pattern, ..*old(shared) }),
                forall|k: int|
                    0 <= k < MAX_STEPS ==> #[trigger] shared.bass_pattern@[k] == (if k < i {
                        params::packed_step(self@.bass.pattern[k]) as u32
                    } else {
                        old(shared).bass_pattern@[k]
                    }),
            decreases len - i,
        {
            shared.publish_bass_step(i, &self.bass_seq.pattern[i]);
            i = i + 1;
        }
        shared.publish_bass_len(len);
        assert(wire(*shared).bass_pattern =~= wire(*old(shared)).with_bass(
            self@.bass,
        ).bass_pattern);
    }

    /// Copies the drum grid into the shared mirror. Every column, not just the
    /// active length: shortening the pattern and lengthening it again must not
    /// show stale cells.
    fn publish_drum_grid(&self, shared: &mut SharedParams)
        requires
            self.wf(),
        ensures
            wire(*final(shared)) == wire(*old(shared)).with_drums(self@.drums.drums.grid),
            same_knobs(*old(shared), *final(shared)),
    {
        let mut i: usize = 0;
        while i < MAX_STEPS
            invariant
                self.wf(),
                i <= 64,
                *shared == (SharedParams { drum_grid: shared.drum_grid, ..*old(shared) }),
                forall|k: int|
                    0 <= k < i ==> #[trigger] shared.drum_grid@[k] == pattern::packed(
                        self@.drums.drums.grid.cells[k],
                    ) as u32,
            decreases 64 - i,
        {
            let column: Column = self.drums.sequencer.pattern.columns[i];
            assert(column@ == self@.drums.drums.grid.cells[i as int]);
            shared.publish_drum_column(i, &column);
            i = i + 1;
        }
        shared.publish_drum_len(self.drums.sequencer.pattern.len);
        assert(wire(*shared).drum_grid =~= wire(*old(shared)).with_drums(
            self@.drums.drums.grid,
        ).drum_grid);
    }

    fn regenerate(&mut self, shared: &mut SharedParams, params: &Params)
        requires
            old(self).wf(),
            playable(*params),
        ensures
            final(self).wf(),
            final(self).events == old(self).events,
            final(self).sample_rate == old(self).sample_rate,
            desk(*final(self), *final(shared)) == desk(*old(self), *old(shared)).regenerated(
                *params,
            ),
            same_knobs(*old(shared), *final(shared)),
    {
        self.sequencer.set_seed(shared.gen_seed);
        let settings: GenerativeSettings = GenerativeSettings::from_params(params);
        self.sequencer.regenerate(&settings);
        self.publish_pattern(shared);
    }

    fn regenerate_bass(&mut self, shared: &mut SharedParams, params: &Params)
        requires
            old(self).wf(),
            playable(*params),
        ensures
            final(self).wf(),
            final(self).events == old(self).events,
            final(self).sample_rate == old(self).sample_rate,
            desk(*final(self), *final(shared)) == desk(*old(self), *old(shared)).bass_regenerated(
                *params,
            ),
            same_knobs(*old(shared), *final(shared)),
    {
        self.bass_seq.set_seed(shared.bass_gen_seed);
        let settings: GenerativeSettings = GenerativeSettings::for_bass(params);
        self.bass_seq.regenerate(&settings);
        self.publish_bass_pattern(shared);
    }

    /// Plays what the melody asks for, the old note ended first.
    fn play_melody(&mut self, out: SeqOutput, params: &Params)
        requires
            old(self).wf(),
        ensures
            final(self).wf(),
            final(self).events == old(self).events,
            final(self)@ == old(self)@.melody_played(out, *params),
            final(self).same_but_voices(*old(self)),
    {
        if params.melody_enabled {
            match out.note_off {
                Some(note) => self.note_off(note, params),
                None => {},
            }
            match out.note_on {
                Some((note, velocity)) => self.note_on(note, velocity, params),
                None => {},
            }
        }
    }

    /// Plays what the bass line asks for.
    fn play_bass(&mut self, out: SeqOutput, params: &Params)
        requires
            old(self).wf(),
        ensures
            final(self).wf(),
            final(self).events == old(self).events,
            final(self)@ == old(self)@.bass_played(out, *params),
            final(self).same_but_voices(*old(self)),
    {
        if params.bass_enabled {
            // Note-off first, then note-on: a tie relies on the voice still
            // being active when the new note arrives.
            if out.note_off.is_some() && !out.slide {
                self.orders.push(Order::ReleaseBass);
            }
            match out.note_on {
                Some((note, velocity)) => {
                    self.orders.push(
                        Order::StartBass { note, accent: out.accent, slide: out.slide },
                    );
                },
                None => {},
            }
        }
    }

    /// Stops the transport: the sounding note ends, drums and bass are cut.
    /// Drums are one-shots with no note-off, so nothing else ever would.
    fn halt(&mut self, params: &Params)
        requires
            old(self).wf(),
        ensures
            final(self).wf(),
            final(self).events == old(self).events,
            final(self)@ == old(self)@.halted(*params),
            final(self).sample_rate == old(self).sample_rate,
    {
        self.clock.stop();
        match self.sequencer.release_all() {
            Some(note) => self.note_off(note, params),
            None => {},
        }
        self.silence_drums();
        self.silence_bass();
    }

    fn clock_tick(&mut self, params: &Params)
        requires
            old(self).wf(),
            playable(*params),
        ensures
            final(self).wf(),
            final(self).events == old(self).events,
            final(self).sample_rate == old(self).sample_rate,
            final(self)@ == old(self)@.clock_ticked(*params),
    {
        // The engine owns the clock, so it also owns the decision about whether
        // this tick advances anything.
        let external: bool = match params.clock_source {
            ClockSource::ExternalMidi => true,
            ClockSource::Internal => false,
        };
        let ticked: bool = external && self.clock.is_running() && self.clock.on_midi_tick(
            params.steps_per_beat,
        );
        let view: ClockView = self.clock.view();
        self.tick_melody(ticked, view, params);
        self.tick_bass(ticked, view, params);
        self.tick_drums(ticked, view, params);
    }

    fn tick_melody(&mut self, ticked: bool, view: ClockView, params: &Params)
        requires
            old(self).wf(),
        ensures
            final(self).wf(),
            final(self).events == old(self).events,
            final(self).sample_rate == old(self).sample_rate,
            final(self)@ == old(self)@.melody_ticked(ticked, view, *params),
    {
        proof {
            reveal(EngineModel::melody_ticked);
        }
        let settings: SeqSettings = SeqSettings::from_params(params);
        let out: SeqOutput = self.sequencer.on_midi_tick(ticked, view, &settings);
        // A mute stops the events, not the playhead.
        self.play_melody(out, params);
    }

    fn tick_bass(&mut self, ticked: bool, view: ClockView, params: &Params)
        requires
            old(self).wf(),
        ensures
            final(self).wf(),
            final(self).events == old(self).events,
            final(self).sample_rate == old(self).sample_rate,
            final(self)@ == old(self)@.bass_ticked(ticked, view, *params),
    {
        proof {
            reveal(EngineModel::bass_ticked);
        }
        let settings: SeqSettings = SeqSettings::for_bass(params);
        let out: SeqOutput = self.bass_seq.on_midi_tick(ticked, view, &settings);
        self.play_bass(out, params);
    }

    fn tick_drums(&mut self, ticked: bool, view: ClockView, params: &Params)
        requires
            old(self).wf(),
            playable(*params),
        ensures
            final(self).wf(),
            final(self).events == old(self).events,
            final(self).sample_rate == old(self).sample_rate,
            final(self)@ == old(self)@.drums_ticked(ticked, view, *params),
    {
        proof {
            reveal(EngineModel::drums_ticked);
        }
        self.drums.on_tick(ticked, view, params, &mut self.orders);
    }

    /// Takes everything back to before its first step, and starts the clock.
    fn rewind(&mut self)
        requires
            old(self).wf(),
        ensures
            final(self).wf(),
            final(self).events == old(self).events,
            final(self).sample_rate == old(self).sample_rate,
            final(self)@ == old(self)@.rewound(),
    {
        self.sequencer.rewind();
        self.drums.sequencer.rewind();
        self.bass_seq.rewind();
        self.clock.start();
    }

    fn set_step(&mut self, shared: &mut SharedParams, index: usize, step: Step)
        requires
            old(self).wf(),
        ensures
            final(self).wf(),
            final(self).events == old(self).events,
            final(self).sample_rate == old(self).sample_rate,
            desk(*final(self), *final(shared)) == desk(*old(self), *old(shared)).step_set(
                index as int,
                step,
            ),
            same_knobs(*old(shared), *final(shared)),
    {
        self.sequencer.set_step(index, step);
        self.publish_pattern(shared);
    }

    fn set_bass_step(&mut self, shared: &mut SharedParams, index: usize, step: Step)
        requires
            old(self).wf(),
        ensures
            final(self).wf(),
            final(self).events == old(self).events,
            final(self).sample_rate == old(self).sample_rate,
            desk(*final(self), *final(shared)) == desk(*old(self), *old(shared)).bass_step_set(
                index as int,
                step,
            ),
            same_knobs(*old(shared), *final(shared)),
    {
        self.bass_seq.set_step(index, step);
        self.publish_bass_pattern(shared);
    }

    /// No publish here: the change is published once per block, so a burst of edits
    /// in one block costs one publish, not one each.
    fn set_cell(&mut self, step: usize, pad: usize, cell: Cell)
        requires
            old(self).wf(),
        ensures
            final(self).wf(),
            final(self).events == old(self).events,
            final(self).sample_rate == old(self).sample_rate,
            final(self)@ == old(self)@.cell_set(step as int, pad as int, cell),
    {
        self.drums.sequencer.set_cell(step, pad, cell);
    }

    /// Applies one event.
    pub fn apply_event(&mut self, shared: &mut SharedParams, event: Event, params: &Params)
        requires
            old(self).wf(),
            playable(*params),
        ensures
            final(self).wf(),
            final(self).events == old(self).events,
            final(self).sample_rate == old(self).sample_rate,
            desk(*final(self), *final(shared)) == desk(*old(self), *old(shared)).applied(
                event,
                *params,
            ),
            same_knobs(*old(shared), *final(shared)),
    {
        proof {
            reveal(Desk::applied);
        }
        match event {
            Event::NoteOn { note, velocity } => {
                self.remember_held(note);
                self.note_on(note, velocity, params);
            },
            Event::NoteOff { note } => {
                self.forget_held(note);
                self.note_off(note, params);
            },
            Event::AllNotesOff => self.all_notes_off(false),
            Event::Panic => self.all_notes_off(true),
            Event::PitchBend(semitones) => shared.pitch_bend.set(semitones),
            Event::ModWheel(value) => shared.mod_wheel.set(value),
            Event::ClockTick => self.clock_tick(params),
            Event::ClockStart => {
                self.rewind();
                shared.seq_playing.set(true);
            },
            Event::ClockStop => {
                shared.seq_playing.set(false);
                self.halt(params);
            },
            Event::ClockContinue => {
                self.clock.resume();
                shared.seq_playing.set(true);
            },
            Event::SetStep { index, step } => self.set_step(shared, index as usize, step),
            Event::Regenerate => self.regenerate(shared, params),
            Event::SetBassStep { index, step } => self.set_bass_step(shared, index as usize, step),
            Event::RegenerateBass => self.regenerate_bass(shared, params),
            Event::SetDrumCell { step, pad, cell } => self.set_cell(
                step as usize,
                pad as usize,
                cell,
            ),
        }
    }
}

/// The most orders that one event gives, or one chunk: every voice let go and another note
/// started, a bass note ended and another started, and every pad struck, the hats cutting
/// each other short.
pub const EVENT_ORDERS: usize = 45;

/// How many orders there is room for: the most that a change of modes, the events of a
/// callback and a stopped transport give together. A chunk gives fewer.
pub const MAX_ORDERS: usize = 23_154;

/// How many events one block handles at most, over all sources together.
pub const EVENT_BUDGET: usize = 512;

/// The events waiting in each source.
pub open spec fn waiting(queues: Seq<EventQueue>) -> Seq<Seq<Event>> {
    Seq::new(queues.len(), |i: int| queues[i]@)
}

/// How many events each source has room for.
pub open spec fn rooms(queues: Seq<EventQueue>) -> Seq<int> {
    Seq::new(queues.len(), |i: int| queues[i].room())
}

/// The first source from `i` on that has an event.
pub open spec fn next_source(waiting: Seq<Seq<Event>>, i: int) -> Option<int>
    decreases waiting.len() - i,
{
    if i >= waiting.len() {
        None
    } else if waiting[i].len() > 0 {
        Some(i)
    } else {
        next_source(waiting, i + 1)
    }
}

impl Desk {
    /// Events applied, source by source in order, until the budget or the events
    /// run out; and the events then left.
    pub open spec fn drained(
        self,
        waiting: Seq<Seq<Event>>,
        cursor: int,
        budget: nat,
        p: Params,
    ) -> (Desk, Seq<Seq<Event>>)
        decreases budget,
    {
        if budget == 0 {
            (self, waiting)
        } else {
            match next_source(waiting, cursor) {
                None => (self, waiting),
                Some(c) => self.applied(waiting[c][0], p).drained(
                    waiting.update(c, waiting[c].drop_first()),
                    c,
                    (budget - 1) as nat,
                    p,
                ),
            }
        }
    }

    /// Everything the control side asked for since the last block done: events
    /// first, then the requests by counter, then the transport flag, read after
    /// the events because they may have set it.
    pub open spec fn caught_up(self, waiting: Seq<Seq<Event>>, p: Params) -> Desk {
        self.drained(waiting, 0, EVENT_BUDGET as nat, p).0.requests_obeyed(p).transport_followed(p)
    }

    /// The modes a block starts in: a change of voice mode cuts everything, and a
    /// melody just muted lets go of what it holds.
    pub open spec fn switched(self, p: Params) -> Desk {
        let e = self.engine;
        let a = if p.voice_mode != e.last_voice_mode {
            EngineModel { last_voice_mode: p.voice_mode, ..e.silenced(true) }
        } else {
            e
        };
        let b = if p.melody_enabled != a.last_melody_enabled {
            EngineModel {
                last_melody_enabled: p.melody_enabled,
                ..(if p.melody_enabled {
                    a
                } else {
                    a.silenced(false)
                })
            }
        } else {
            a
        };
        self.with(b)
    }

    /// The start of a block: the modes are switched, and then the events are
    /// drained.
    #[verifier::opaque]
    pub open spec fn block_begun(self, waiting: Seq<Seq<Event>>, p: Params) -> Desk {
        self.switched(p).caught_up(waiting, p)
    }

    /// The events that the start of a block leaves for the next.
    #[verifier::opaque]
    pub open spec fn block_leaves(self, waiting: Seq<Seq<Event>>, p: Params) -> Seq<Seq<Event>> {
        self.switched(p).drained(waiting, 0, EVENT_BUDGET as nat, p).1
    }

    /// The melody of a chunk: advanced, published with its length if it changed,
    /// and played.
    #[verifier::opaque]
    pub open spec fn melody_advanced(
        self,
        frames: int,
        adv: Advance,
        clock: ClockView,
        p: Params,
    ) -> Desk {
        let e = self.engine;
        let (moved, out) = e.melody.advanced(frames, adv, clock, SeqSettings::of_melody(p));
        let melody = SeqModel { pattern_changed: false, ..moved };
        let w = if moved.pattern_changed {
            Wire { seq_length: melody.length as u32, ..self.wire }.with_melody(melody)
        } else {
            self.wire
        };
        Desk { engine: EngineModel { melody, ..e }.melody_played(out, p), wire: w }
    }

    /// The bass line of a chunk, on the same terms.
    #[verifier::opaque]
    pub open spec fn bass_advanced(
        self,
        frames: int,
        adv: Advance,
        clock: ClockView,
        p: Params,
    ) -> Desk {
        let e = self.engine;
        let (moved, out) = e.bass.advanced(frames, adv, clock, SeqSettings::of_bass(p));
        let bass = SeqModel { pattern_changed: false, ..moved };
        let w = if moved.pattern_changed {
            Wire { bass_seq_length: bass.length as u32, ..self.wire }.with_bass(bass)
        } else {
            self.wire
        };
        Desk { engine: EngineModel { bass, ..e }.bass_played(out, p), wire: w }
    }

    /// The drums of a chunk: cued, and the grid published if it changed.
    #[verifier::opaque]
    pub open spec fn drums_advanced(
        self,
        frames: int,
        adv: Advance,
        clock: ClockView,
        p: Params,
    ) -> Desk {
        let e = self.engine;
        let (moved, orders) = e.drums.cued(frames, adv, clock, p);
        let drums = RackModel {
            drums: DrumModel { grid_changed: false, ..moved.drums },
            ..moved
        };
        let w = if moved.drums.grid_changed {
            self.wire.with_drums(drums.drums.grid)
        } else {
            self.wire
        };
        Desk { engine: EngineModel { drums, orders: e.orders + orders, ..e }, wire: w }
    }

    /// The clock set to the tempo, where it keeps its own.
    pub open spec fn tuned(self, p: Params) -> Clock {
        let c = self.engine.clock;
        if p.clock_source == ClockSource::Internal {
            Clock {
                samples_per_step: clock::step_at_tempo(c.sample_rate, p.tempo, p.steps_per_beat),
                ..c
            }
        } else {
            c
        }
    }

    /// One chunk sequenced: one advance of the one clock drives all three
    /// tracks, so nothing can drift from anything else.
    pub open spec fn sequenced(self, frames: int, p: Params) -> Desk {
        let e = self.engine;
        let (moved, adv) = self.tuned(p).advanced(frames, p.clock_source);
        let view = moved.seen();
        self.with(EngineModel { clock: moved, ..e }).melody_advanced(
            frames,
            adv,
            view,
            p,
        ).bass_advanced(frames, adv, view, p).drums_advanced(frames, adv, view, p)
    }
}

impl Engine {
    /// Pops the next event, moving on to the next source as each empties.
    ///
    /// `cursor` carries the position across calls so the sweep is linear overall
    /// rather than restarting from the first source every time.
    fn next_event(&mut self, cursor: &mut usize) -> (e: Option<Event>)
        requires
            old(self).wf(),
        ensures
            final(self).wf(),
            final(self)@ == old(self)@,
            final(self).sample_rate == old(self).sample_rate,
            rooms(final(self).events@) == rooms(old(self).events@),
            match next_source(waiting(old(self).events@), *old(cursor) as int) {
                Some(c) => {
                    &&& e == Some(waiting(old(self).events@)[c][0])
                    &&& *final(cursor) == c
                    &&& waiting(final(self).events@) == waiting(old(self).events@).update(
                        c,
                        waiting(old(self).events@)[c].drop_first(),
                    )
                },
                None => e is None && waiting(final(self).events@) == waiting(old(self).events@),
            },
    {
        while *cursor < self.events.len()
            invariant
                self.wf(),
                self@ == old(self)@,
                self.sample_rate == old(self).sample_rate,
                waiting(self.events@) == waiting(old(self).events@),
                rooms(self.events@) == rooms(old(self).events@),
                next_source(waiting(old(self).events@), *old(cursor) as int) == next_source(
                    waiting(old(self).events@),
                    *cursor as int,
                ),
            decreases self.events@.len() - *cursor,
        {
            let c: usize = *cursor;
            let ghost before = self.events@;
            let event: Option<Event> = self.events[c].pop();
            assert(rooms(self.events@) =~= rooms(before));
            match event {
                Some(ev) => {
                    assert(waiting(self.events@) =~= waiting(before).update(
                        c as int,
                        waiting(before)[c as int].drop_first(),
                    ));
                    return Some(ev);
                },
                None => {
                    assert(waiting(self.events@) =~= waiting(before));
                },
            }
            *cursor = c + 1;
        }
        None
    }

    /// Applies every queued control event, from every source.
    ///
    /// The work per call is bounded: a producer flooding a queue must not be
    /// able to make the callback miss its deadline. The budget is shared, so one
    /// flood cannot buy itself extra time at the others' expense either.
    pub fn drain_events(&mut self, shared: &mut SharedParams, params: &Params)
        requires
            old(self).wf(),
            playable(*params),
        ensures
            final(self).wf(),
            desk(*final(self), *final(shared)) == desk(*old(self), *old(shared)).caught_up(
                waiting(old(self).events@),
                *params,
            ),
            waiting(final(self).events@) == desk(*old(self), *old(shared)).drained(
                waiting(old(self).events@),
                0,
                EVENT_BUDGET as nat,
                *params,
            ).1,
            rooms(final(self).events@) == rooms(old(self).events@),
            final(self).sample_rate == old(self).sample_rate,
            same_knobs(*old(shared), *final(shared)),
    {
        let ghost start = desk(*self, *shared);
        let ghost all = waiting(self.events@);
        let mut budget: usize = EVENT_BUDGET;
        let mut cursor: usize = 0;
        while budget > 0
            invariant_except_break
                start.drained(all, 0, EVENT_BUDGET as nat, *params) == desk(
                    *self,
                    *shared,
                ).drained(waiting(self.events@), cursor as int, budget as nat, *params),
            invariant
                self.wf(),
                playable(*params),
                same_knobs(*old(shared), *shared),
                rooms(self.events@) == rooms(old(self).events@),
                self.sample_rate == old(self).sample_rate,
            ensures
                start.drained(all, 0, EVENT_BUDGET as nat, *params) == (
                    desk(*self, *shared),
                    waiting(self.events@),
                ),
            decreases budget,
        {
            budget = budget - 1;
            match self.next_event(&mut cursor) {
                Some(event) => self.apply_event(shared, event, params),
                None => {
                    break ;
                },
            }
        }
        self.obey_requests(shared, params);
        self.follow_transport(shared, params);
    }

    /// The control side can ask for a pattern by bumping a counter, which works
    /// from anywhere without needing a queue slot. A saved pattern is loaded the
    /// same way: it is too big to travel through the event queue.
    fn obey_requests(&mut self, shared: &mut SharedParams, params: &Params)
        requires
            old(self).wf(),
            playable(*params),
        ensures
            final(self).wf(),
            final(self).events == old(self).events,
            final(self).sample_rate == old(self).sample_rate,
            desk(*final(self), *final(shared)) == desk(*old(self), *old(shared)).requests_obeyed(
                *params,
            ),
            same_knobs(*old(shared), *final(shared)),
    {
        self.obey_melody(shared, params);
        self.obey_bass(shared, params);
        self.obey_pattern(shared);
    }

    fn obey_melody(&mut self, shared: &mut SharedParams, params: &Params)
        requires
            old(self).wf(),
            playable(*params),
        ensures
            final(self).wf(),
            final(self).events == old(self).events,
            final(self).sample_rate == old(self).sample_rate,
            desk(*final(self), *final(shared)) == desk(*old(self), *old(shared)).melody_asked(
                *params,
            ),
            same_knobs(*old(shared), *final(shared)),
    {
        if shared.gen_regenerate != self.last_regenerate {
            self.last_regenerate = shared.gen_regenerate;
            self.regenerate(shared, params);
        }
    }

    fn obey_bass(&mut self, shared: &mut SharedParams, params: &Params)
        requires
            old(self).wf(),
            playable(*params),
        ensures
            final(self).wf(),
            final(self).events == old(self).events,
            final(self).sample_rate == old(self).sample_rate,
            desk(*final(self), *final(shared)) == desk(*old(self), *old(shared)).bass_asked(
                *params,
            ),
            same_knobs(*old(shared), *final(shared)),
    {
        if shared.bass_regenerate != self.last_bass_regenerate {
            self.last_bass_regenerate = shared.bass_regenerate;
            self.regenerate_bass(shared, params);
        }
    }

    fn obey_pattern(&mut self, shared: &SharedParams)
        requires
            old(self).wf(),
        ensures
            final(self).wf(),
            final(self).events == old(self).events,
            final(self).sample_rate == old(self).sample_rate,
            desk(*final(self), *shared) == desk(*old(self), *shared).pattern_asked(),
    {
        if shared.pending_request != self.last_pattern_request {
            self.last_pattern_request = shared.pending_request;
            let staged: crate::sequencer::Pattern = shared.read_pending_pattern();
            assert(staged@ =~= wire(*shared).staged());
            self.sequencer.queue_pattern(staged);
        }
    }

    /// The transport can also be driven by the `seq_playing` flag, for callers
    /// that would rather set a flag than send an event.
    fn follow_transport(&mut self, shared: &SharedParams, params: &Params)
        requires
            old(self).wf(),
        ensures
            final(self).wf(),
            final(self).events == old(self).events,
            final(self).sample_rate == old(self).sample_rate,
            desk(*final(self), *shared) == desk(*old(self), *shared).transport_followed(*params),
    {
        let should_play: bool = shared.seq_playing.get();
        if should_play != self.clock.is_running() {
            if should_play {
                self.clock.start();
            } else {
                self.halt(params);
            }
        }
    }

    /// Switches to the modes a block asks for.
    fn switch_modes(&mut self, shared: &SharedParams, params: &Params)
        requires
            old(self).wf(),
        ensures
            final(self).wf(),
            final(self).events == old(self).events,
            final(self).sample_rate == old(self).sample_rate,
            desk(*final(self), *shared) == desk(*old(self), *shared).switched(*params),
    {
        if params.voice_mode != self.last_voice_mode {
            // Switching mid-note would otherwise leave orphaned voices sounding
            // with no way to release them: a poly voice has no owner in mono.
            self.all_notes_off(true);
            self.last_voice_mode = params.voice_mode;
        }
        if params.melody_enabled != self.last_melody_enabled {
            // A mute, not a panic: let go rather than cut.
            if !params.melody_enabled {
                self.all_notes_off(false);
            }
            self.last_melody_enabled = params.melody_enabled;
        }
    }

    /// Everything that happens once per block, before any audio: take the
    /// parameter snapshot, handle a mode switch, drain the events. Returns the
    /// snapshot the whole block will use.
    ///
    /// The mode switch comes first: afterwards it would silence the very notes
    /// those events just triggered.
    pub fn begin_block(&mut self, shared: &mut SharedParams) -> (p: Params)
        requires
            old(self).wf(),
        ensures
            final(self).wf(),
            old(shared).reads(p),
            p.in_range(),
            desk(*final(self), *final(shared)) == desk(*old(self), *old(shared)).block_begun(
                waiting(old(self).events@),
                p,
            ),
            waiting(final(self).events@) == desk(*old(self), *old(shared)).block_leaves(
                waiting(old(self).events@),
                p,
            ),
            rooms(final(self).events@) == rooms(old(self).events@),
            final(self).sample_rate == old(self).sample_rate,
            same_knobs(*old(shared), *final(shared)),
    {
        proof {
            reveal(Desk::block_begun);
            reveal(Desk::block_leaves);
        }
        let params: Params = shared.snapshot();
        self.switch_modes(shared, &params);
        proof {
            law_settings_in_range_are_playable(params);
        }
        self.drain_events(shared, &params);
        params
    }

    /// Sequences one chunk: tempo, then one advance of the clock, then melody,
    /// bass and drums from the same result. The orders it gives are for the
    /// sound sources to carry out before they render the chunk.
    pub fn sequence_chunk(&mut self, shared: &mut SharedParams, frames: usize, params: &Params)
        requires
            old(self).wf(),
            playable(*params),
        ensures
            final(self).wf(),
            final(self).events == old(self).events,
            final(self).sample_rate == old(self).sample_rate,
            desk(*final(self), *final(shared)) == desk(*old(self), *old(shared)).sequenced(
                frames as int,
                *params,
            ),
            same_knobs(*old(shared), *final(shared)),
    {
        if params.clock_source == ClockSource::Internal {
            self.clock.set_tempo(params.tempo, params.steps_per_beat);
        }
        let adv: Advance = self.clock.advance(frames, params.clock_source);
        let view: ClockView = self.clock.view();
        self.advance_melody(shared, frames, adv, view, params);
        self.advance_bass(shared, frames, adv, view, params);
        self.advance_drums(shared, frames, adv, view, params);
    }

    fn advance_melody(
        &mut self,
        shared: &mut SharedParams,
        frames: usize,
        adv: Advance,
        view: ClockView,
        params: &Params,
    )
        requires
            old(self).wf(),
        ensures
            final(self).wf(),
            final(self).events == old(self).events,
            final(self).sample_rate == old(self).sample_rate,
            desk(*final(self), *final(shared)) == desk(*old(self), *old(shared)).melody_advanced(
                frames as int,
                adv,
                view,
                *params,
            ),
            same_knobs(*old(shared), *final(shared)),
    {
        proof {
            reveal(Desk::melody_advanced);
        }
        let settings: SeqSettings = SeqSettings::from_params(params);
        let out: SeqOutput = self.sequencer.advance(frames, adv, view, &settings);
        if self.sequencer.take_pattern_changed() {
            // The pattern brought its own length, so the knob has to follow it
            // or the next block's reconcile would cut the melody short.
            shared.seq_length.set(self.sequencer.length as u32);
            self.publish_pattern(shared);
        }
        self.play_melody(out, params);
    }

    fn advance_bass(
        &mut self,
        shared: &mut SharedParams,
        frames: usize,
        adv: Advance,
        view: ClockView,
        params: &Params,
    )
        requires
            old(self).wf(),
        ensures
            final(self).wf(),
            final(self).events == old(self).events,
            final(self).sample_rate == old(self).sample_rate,
            desk(*final(self), *final(shared)) == desk(*old(self), *old(shared)).bass_advanced(
                frames as int,
                adv,
                view,
                *params,
            ),
            same_knobs(*old(shared), *final(shared)),
    {
        proof {
            reveal(Desk::bass_advanced);
        }
        let settings: SeqSettings = SeqSettings::for_bass(params);
        let out: SeqOutput = self.bass_seq.advance(frames, adv, view, &settings);
        if self.bass_seq.take_pattern_changed() {
            shared.bass_seq_length.set(self.bass_seq.length as u32);
            self.publish_bass_pattern(shared);
        }
        self.play_bass(out, params);
    }

    fn advance_drums(
        &mut self,
        shared: &mut SharedParams,
        frames: usize,
        adv: Advance,
        view: ClockView,
        params: &Params,
    )
        requires
            old(self).wf(),
            playable(*params),
        ensures
            final(self).wf(),
            final(self).events == old(self).events,
            final(self).sample_rate == old(self).sample_rate,
            desk(*final(self), *final(shared)) == desk(*old(self), *old(shared)).drums_advanced(
                frames as int,
                adv,
                view,
                *params,
            ),
            same_knobs(*old(shared), *final(shared)),
    {
        proof {
            reveal(Desk::drums_advanced);
        }
        self.drums.cue(frames, adv, view, params, &mut self.orders);
        if self.drums.sequencer.take_grid_changed() {
            self.publish_drum_grid(shared);
        }
    }
}

/// How many of the first `n` voices sound.
pub open spec fn sounding(voices: Seq<Voice>, n: int) -> int
    decreases n,
{
    if n <= 0 {
        0
    } else {
        sounding(voices, n - 1) + if voices[n - 1].active() {
            1int
        } else {
            0
        }
    }
}

/// The place a sequencer shows: the top, before it has played.
pub open spec fn shown(position: Option<int>) -> int {
    match position {
        Some(p) => p,
        None => 0,
    }
}

impl EngineModel {
    /// An engine at rest, a melody and a bass line written and nothing sounding.
    pub open spec fn at_rest(sample_rate: Single, s: SharedParams, p: Params) -> EngineModel {
        EngineModel {
            voices: Seq::new(MAX_VOICES as nat, |i: int| Voice::fresh()),
            held: Seq::empty(),
            age: 1,
            melody: SeqModel::blank(s.gen_seed).regenerated(GenerativeSettings::of_melody(p)),
            bass: SeqModel::blank(s.bass_gen_seed).regenerated(GenerativeSettings::of_bass(p)),
            drums: RackModel::blank(),
            clock: Clock {
                samples_per_step: clock::step_at_tempo(sample_rate, p.tempo, p.steps_per_beat),
                ..Clock::at_rest(sample_rate)
            },
            last_voice_mode: p.voice_mode,
            last_melody_enabled: p.melody_enabled,
            last_regenerate: 0,
            last_bass_regenerate: 0,
            last_pattern_request: 0,
            orders: Seq::empty(),
        }
    }
}

impl Engine {
    /// An engine that drains one event queue. Both lines are written from the
    /// shared seeds and published.
    pub fn new(sample_rate: Single, shared: &mut SharedParams, events: EventQueue) -> (e: Engine)
        requires
            events.wf(),
        ensures
            e.wf(),
            e.sample_rate == sample_rate,
            e.events@ == seq![events],
            same_knobs(*old(shared), *final(shared)),
            exists|p: Params|
                #![trigger old(shared).reads(p)]
                old(shared).reads(p) && {
                    let m = EngineModel::at_rest(sample_rate, *old(shared), p);
                    &&& e@ == m
                    &&& wire(*final(shared)) == wire(*old(shared)).with_melody(
                        m.melody,
                    ).with_bass(m.bass)
                },
    {
        let mut queues: Vec<EventQueue> = Vec::new();
        queues.push(events);
        Engine::with_sources(sample_rate, shared, queues)
    }

    /// An engine at rest on a patch, both lines written.
    fn at_rest(
        sample_rate: Single,
        shared: &SharedParams,
        p: &Params,
        events: Vec<EventQueue>,
    ) -> (e: Engine)
        requires
            playable(*p),
            forall|i: int| 0 <= i < events@.len() ==> (#[trigger] events@[i]).wf(),
        ensures
            e.wf(),
            e.sample_rate == sample_rate,
            e.events == events,
            e@ == EngineModel::at_rest(sample_rate, *shared, *p),
    {
        let mut sequencer: Sequencer = Sequencer::new(shared.gen_seed);
        sequencer.regenerate(&GenerativeSettings::from_params(p));
        let mut bass_seq: Sequencer = Sequencer::new(shared.bass_gen_seed);
        bass_seq.regenerate(&GenerativeSettings::for_bass(p));
        let mut clock: Clock = Clock::new(sample_rate);
        clock.set_tempo(p.tempo, p.steps_per_beat);
        let v: Voice = Voice::new();
        let e: Engine = Engine {
            sample_rate,
            voices: [v; MAX_VOICES],
            held: Vec::with_capacity(MAX_HELD),
            age_counter: 1,
            sequencer,
            bass_seq,
            drums: DrumRack::new(),
            clock,
            last_voice_mode: p.voice_mode,
            last_melody_enabled: p.melody_enabled,
            last_regenerate: 0,
            last_bass_regenerate: 0,
            last_pattern_request: 0,
            orders: Vec::with_capacity(MAX_ORDERS),
            events,
        };
        assert(e@ =~= EngineModel::at_rest(sample_rate, *shared, *p));
        e
    }

    /// Builds an engine that drains several event queues.
    pub fn with_sources(
        sample_rate: Single,
        shared: &mut SharedParams,
        events: Vec<EventQueue>,
    ) -> (e: Engine)
        requires
            forall|i: int| 0 <= i < events@.len() ==> (#[trigger] events@[i]).wf(),
        ensures
            e.wf(),
            e.sample_rate == sample_rate,
            e.events == events,
            same_knobs(*old(shared), *final(shared)),
            exists|p: Params|
                #![trigger old(shared).reads(p)]
                old(shared).reads(p) && {
                    let m = EngineModel::at_rest(sample_rate, *old(shared), p);
                    &&& e@ == m
                    &&& wire(*final(shared)) == wire(*old(shared)).with_melody(
                        m.melody,
                    ).with_bass(m.bass)
                },
    {
        let p: Params = shared.snapshot();
        proof {
            law_settings_in_range_are_playable(p);
        }
        let e: Engine = Engine::at_rest(sample_rate, shared, &p, events);
        e.publish_pattern(shared);
        e.publish_bass_pattern(shared);
        e
    }

    pub fn sample_rate(&self) -> (rate: Single)
        ensures
            rate == self.sample_rate,
    {
        self.sample_rate
    }

    /// Reconfigures for a new sample rate. Not for the callback: call it from
    /// the setup path.
    pub fn set_sample_rate(&mut self, sample_rate: Single)
        requires
            old(self).wf(),
        ensures
            final(self).wf(),
            final(self).events == old(self).events,
            final(self).sample_rate == sample_rate,
            final(self)@ == (EngineModel {
                clock: Clock { sample_rate, tick_estimate_valid: false, ..old(self)@.clock },
                ..old(self)@
            }),
    {
        self.sample_rate = sample_rate;
        self.clock.set_sample_rate(sample_rate);
    }

    /// Current sequencer pattern, for display.
    pub fn pattern(&self) -> (s: &[Step])
        requires
            self.wf(),
        ensures
            s@ == self@.melody.pattern.take(self@.melody.length),
    {
        self.sequencer.pattern()
    }

    /// Current drum grid, for display.
    pub fn drum_grid(&self) -> (g: &DrumPattern)
        ensures
            g@ == self@.drums.drums.grid,
    {
        self.drums.sequencer.grid()
    }

    /// Hands the orders over to be carried out.
    pub fn take_orders(&mut self) -> (orders: Vec<Order>)
        requires
            old(self).wf(),
        ensures
            final(self).wf(),
            orders@ == old(self)@.orders,
            final(self)@ == (EngineModel { orders: Seq::empty(), ..old(self)@ }),
            final(self).events == old(self).events,
            final(self).sample_rate == old(self).sample_rate,
    {
        let mut orders: Vec<Order> = Vec::new();
        std::mem::swap(&mut orders, &mut self.orders);
        orders
    }

    /// Takes the list of orders back once they are carried out, to write the next into.
    pub fn reuse(&mut self, orders: Vec<Order>)
        requires
            old(self).wf(),
            old(self)@.orders.len() == 0,
        ensures
            final(self).wf(),
            final(self)@ == old(self)@,
            final(self).events == old(self).events,
            final(self).sample_rate == old(self).sample_rate,
            final(self).voices == old(self).voices,
            final(self).clock == old(self).clock,
    {
        let mut list: Vec<Order> = orders;
        list.clear();
        self.orders = list;
        assert(self@ =~= old(self)@);
    }

    /// Adds another event source. Not for the callback: call it before starting
    /// the stream.
    pub fn add_event_source(&mut self, events: EventQueue)
        requires
            old(self).wf(),
            events.wf(),
        ensures
            final(self).wf(),
            final(self)@ == old(self)@,
            final(self).sample_rate == old(self).sample_rate,
            final(self).events@ == old(self).events@.push(events),
    {
        self.events.push(events);
    }

    fn count_active(&self) -> (n: u32)
        ensures
            n == sounding(self.voices@, MAX_VOICES as int),
    {
        let mut n: u32 = 0;
        let mut i: usize = 0;
        while i < MAX_VOICES
            invariant
                i <= 32,
                n <= i,
                n == sounding(self.voices@, i as int),
            decreases 32 - i,
        {
            if self.voices[i].is_active() {
                n = n + 1;
            }
            i = i + 1;
        }
        n
    }

    /// Publishes what the display shows: voices sounding, playheads, peak and
    /// gain reductions.
    ///
    /// The highest peak the control side has not yet read is kept, so a meter
    /// polling slower than the audio callback still catches transients. The
    /// reductions are set as they are: those meters should follow the
    /// compressors down as they release.
    pub fn publish_telemetry(&self, shared: &mut SharedParams, peak: Single, reductions: Reductions)
        requires
            self.wf(),
        ensures
            *final(shared) == (SharedParams {
                active_voices: sounding(self.voices@, MAX_VOICES as int) as u32,
                current_step: shown(self@.melody.position) as u32,
                drum_position: shown(self@.drums.drums.position) as u32,
                bass_step: shown(self@.bass.position) as u32,
                output_peak: final(shared).output_peak,
                comp_synth_gr: final(shared).comp_synth_gr,
                comp_master_gr: final(shared).comp_master_gr,
                comp_bass_gr: final(shared).comp_bass_gr,
                ..*old(shared)
            }),
            final(shared).output_peak@ == old(shared).output_peak@.larger(peak),
            final(shared).comp_synth_gr@ == reductions.synth,
            final(shared).comp_master_gr@ == reductions.master,
            final(shared).comp_bass_gr@ == reductions.bass,
    {
        shared.active_voices = self.count_active();
        shared.current_step = self.sequencer.position() as u32;
        shared.drum_position = self.drums.sequencer.position() as u32;
        shared.bass_step = self.bass_seq.position() as u32;
        let previous: Single = shared.output_peak.get();
        shared.output_peak.set(previous.max(peak));
        shared.comp_synth_gr.set(reductions.synth);
        shared.comp_master_gr.set(reductions.master);
        shared.comp_bass_gr.set(reductions.bass);
    }
}

} // verus!
