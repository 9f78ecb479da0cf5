//! What the control half asks of the sound sources.

use crate::single::Single;
use vstd::prelude::*;

verus! {

/// One instruction to a sound source, to be carried out in order.
#[derive(Debug, Clone, Copy, PartialEq, Eq, Structural)]
#[allow(inconsistent_fields)]
pub enum Order {
    /// Start a note on a voice from silence, gliding from another where asked.
    StartVoice { voice: usize, note: u8, velocity: Single, glide_from: Option<u8> },
    /// Slide a sounding voice to another note without restarting it.
    RetuneVoice { voice: usize, note: u8, velocity: Single },
    /// Let a voice's key go.
    ReleaseVoice { voice: usize },
    /// Cut a voice dead.
    KillVoice { voice: usize },
    /// Fade a voice out, then start a note on it.
    StealVoice { voice: usize, note: u8, velocity: Single },
    /// Strike a pad.
    StrikePad { pad: usize, velocity: Single, tune: Single, decay: Single },
    /// Cut a pad dead.
    SilencePad { pad: usize },
    /// Start a bass note, tied to the one before it where asked.
    StartBass { note: u8, accent: bool, slide: bool },
    /// Let the bass key go.
    ReleaseBass,
    /// Cut the bass dead.
    SilenceBass,
}

} // verus!
