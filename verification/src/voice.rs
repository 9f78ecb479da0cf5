//! What the allocator knows of a voice: its note, its key, its age, and how far
//! its envelope has got.
//!
//! The sound itself is made by a tone, which carries out the orders that the
//! allocator gives, and reports the envelope's stage and level back.

use crate::env::EnvStage;
use crate::params::of;
use crate::single::Single;
use vstd::prelude::*;

verus! {

/// A note waiting for the voice it takes over to fade out.
#[derive(Debug, Clone, Copy, PartialEq, Eq, Structural)]
pub struct StealFade {
    pub note: u8,
    pub velocity: Single,
}

/// One voice.
#[derive(Debug, Clone, Copy, PartialEq, Eq, Structural)]
pub struct Voice {
    /// The MIDI note this voice is playing.
    pub note: u8,
    pub velocity: Single,
    /// True while the key is held. Distinct from "audible": a voice with the
    /// key released is still sounding through its release stage.
    pub gate: bool,
    /// Goes up with every note-on. The lowest is the oldest.
    pub age: u64,
    /// The stage of the amplitude envelope.
    pub stage: EnvStage,
    /// The level of the amplitude envelope.
    pub level: Single,
    /// Set while fading out to make room for another note.
    pub steal_fade: Option<StealFade>,
}

/// A velocity held to the unit interval.
pub open spec fn unit_velocity(v: Single) -> Single {
    v.clamped(of(0), of(0x3F80_0000))
}

impl Voice {
    /// A voice that has never played.
    pub open spec fn fresh() -> Voice {
        Voice {
            note: 60,
            velocity: of(0),
            gate: false,
            age: 0,
            stage: EnvStage::Idle,
            level: of(0),
            steal_fade: None,
        }
    }

    /// Whether the voice makes sound, its release tail and a fade included.
    pub open spec fn active(self) -> bool {
        self.stage != EnvStage::Idle || self.steal_fade is Some
    }

    /// Whether the key is held. These are the voices to steal last.
    pub open spec fn held(self) -> bool {
        self.gate && self.stage != EnvStage::Release
    }

    /// The voice with a note started on it from silence.
    pub open spec fn started(self, note: u8, velocity: Single, age: u64) -> Voice {
        Voice {
            note,
            velocity: unit_velocity(velocity),
            gate: true,
            age,
            stage: EnvStage::Attack,
            level: of(0),
            ..self
        }
    }

    /// The voice with its key let go. It keeps sounding through its release.
    pub open spec fn released(self) -> Voice {
        Voice {
            gate: false,
            stage: if self.stage == EnvStage::Idle {
                EnvStage::Idle
            } else {
                EnvStage::Release
            },
            ..self
        }
    }

    /// The voice cut dead.
    pub open spec fn killed(self) -> Voice {
        Voice {
            gate: false,
            stage: EnvStage::Idle,
            level: of(0),
            steal_fade: None,
            ..self
        }
    }

    /// The voice taken for another note: faded first if it is sounding.
    pub open spec fn stolen(self, note: u8, velocity: Single, age: u64) -> Voice {
        if self.active() {
            Voice { age, steal_fade: Some(StealFade { note, velocity }), ..self }
        } else {
            self.started(note, velocity, age)
        }
    }

    /// The voice once its fade is over.
    pub open spec fn faded(self) -> Voice {
        match self.steal_fade {
            Some(f) => self.killed().started(f.note, f.velocity, self.age),
            None => self,
        }
    }

    pub fn new() -> (v: Voice)
        ensures
            v == Voice::fresh(),
    {
        Voice {
            note: 60,
            velocity: of(0),
            gate: false,
            age: 0,
            stage: EnvStage::Idle,
            level: of(0),
            steal_fade: None,
        }
    }

    /// True while this voice is producing sound, including its release tail.
    pub fn is_active(&self) -> (yes: bool)
        ensures
            yes == self.active(),
    {
        self.stage != EnvStage::Idle || self.steal_fade.is_some()
    }

    /// True while the key is held.
    pub fn is_held(&self) -> (yes: bool)
        ensures
            yes == self.held(),
    {
        self.gate && self.stage != EnvStage::Release
    }

    /// Current amplitude envelope level.
    pub fn level(&self) -> (x: Single)
        ensures
            x == self.level,
    {
        self.level
    }

    /// Starts a note from silence.
    pub fn note_on(&mut self, note: u8, velocity: Single, age: u64)
        ensures
            *final(self) == old(self).started(note, velocity, age),
    {
        self.note = note;
        self.velocity = velocity.clamp(of(0), of(0x3F80_0000));
        self.gate = true;
        self.age = age;
        self.stage = EnvStage::Attack;
        self.level = of(0);
    }

    /// Releases the key. The voice keeps sounding through its release stage.
    pub fn note_off(&mut self)
        ensures
            *final(self) == old(self).released(),
    {
        self.gate = false;
        if self.stage != EnvStage::Idle {
            self.stage = EnvStage::Release;
        }
    }

    /// Silences the voice immediately. Only for panics: this clicks.
    pub fn kill(&mut self)
        ensures
            *final(self) == old(self).killed(),
    {
        self.gate = false;
        self.stage = EnvStage::Idle;
        self.level = of(0);
        self.steal_fade = None;
    }

    /// Takes this voice for a new note, fading the old one out first.
    ///
    /// Cutting a sounding voice to start a new one leaves a click, and in a busy
    /// passage voices get stolen constantly.
    pub fn steal(&mut self, note: u8, velocity: Single, age: u64)
        ensures
            *final(self) == old(self).stolen(note, velocity, age),
    {
        self.age = age;
        if !self.is_active() {
            self.note_on(note, velocity, age);
            return ;
        }
        self.steal_fade = Some(StealFade { note, velocity });
    }

    /// Reports that the fade is over: the waiting note starts.
    pub fn finish_steal(&mut self)
        ensures
            *final(self) == old(self).faded(),
    {
        match self.steal_fade {
            Some(f) => {
                let age: u64 = self.age;
                self.kill();
                self.note_on(f.note, f.velocity, age);
            },
            None => {},
        }
    }

    /// Retunes a sounding voice. Used by mono mode when a new note takes over.
    pub fn set_target_note(&mut self, note: u8)
        ensures
            *final(self) == (Voice { note, ..*old(self) }),
    {
        self.note = note;
    }

    /// Reports how far the envelope has got.
    pub fn observe(&mut self, stage: EnvStage, level: Single)
        ensures
            *final(self) == (Voice { stage, level, ..*old(self) }),
    {
        self.stage = stage;
        self.level = level;
    }
}

impl Default for Voice {
    fn default() -> (v: Voice)
        ensures
            v == Voice::fresh(),
    {
        Voice::new()
    }
}

/// A killed voice is free, and a stolen one ends up playing the note it was
/// stolen for, at the age it was stolen at.
pub proof fn law_steal_plays_the_new_note(v: Voice, note: u8, velocity: Single, age: u64)
    ensures
        !v.killed().active(),
        v.stolen(note, velocity, age).active(),
        v.stolen(note, velocity, age).faded().note == note,
        v.stolen(note, velocity, age).faded().age == age,
        v.active() ==> v.stolen(note, velocity, age).faded().held(),
{
}

/// Letting go of a key never frees a sounding voice at once: it rings on.
pub proof fn law_release_rings_on(v: Voice)
    ensures
        v.released().active() == v.active(),
        !v.released().held(),
{
}

} // verus!
