//! The eight pads.

use crate::single::Single;
use vstd::prelude::*;

verus! {

/// Pads in the rack. Fixed at eight: the grid publishes one pad per four bits,
/// and eight pads fit one word exactly.
pub const PAD_COUNT: usize = 8;

/// One pad of the rack.
#[derive(Debug, Clone, Copy, PartialEq, Eq, Structural)]
pub enum Pad {
    Kick,
    Snare,
    ClosedHat,
    OpenHat,
    Clap,
    LowTom,
    HighTom,
    Rim,
}

impl Pad {
    /// Every value, in the order of its number.
    pub const ALL: [Pad; 8] = [
        Pad::Kick,
        Pad::Snare,
        Pad::ClosedHat,
        Pad::OpenHat,
        Pad::Clap,
        Pad::LowTom,
        Pad::HighTom,
        Pad::Rim,
    ];

    /// The number that a settings word holds for this value.
    pub open spec fn number(self) -> u32 {
        match self {
            Pad::Kick => 0,
            Pad::Snare => 1,
            Pad::ClosedHat => 2,
            Pad::OpenHat => 3,
            Pad::Clap => 4,
            Pad::LowTom => 5,
            Pad::HighTom => 6,
            Pad::Rim => 7,
        }
    }

    /// The value with a given number; unknown numbers give `Kick` rather
    /// than a panic, because this runs on the audio thread.
    pub fn from_u32(v: u32) -> (x: Pad)
        ensures
            v < 8 ==> x.number() == v,
            v >= 8 ==> x == Pad::Kick,
    {
        match v {
            0 => Pad::Kick,
            1 => Pad::Snare,
            2 => Pad::ClosedHat,
            3 => Pad::OpenHat,
            4 => Pad::Clap,
            5 => Pad::LowTom,
            6 => Pad::HighTom,
            7 => Pad::Rim,
            _ => Pad::Kick,
        }
    }

    /// The number of this value.
    pub fn to_u32(self) -> (v: u32)
        ensures
            v == self.number(),
            v < 8,
    {
        match self {
            Pad::Kick => 0,
            Pad::Snare => 1,
            Pad::ClosedHat => 2,
            Pad::OpenHat => 3,
            Pad::Clap => 4,
            Pad::LowTom => 5,
            Pad::HighTom => 6,
            Pad::Rim => 7,
        }
    }

    /// What the value is called on the panel.
    pub open spec fn title(self) -> Seq<char> {
        match self {
            Pad::Kick => "KICK"@,
            Pad::Snare => "SNARE"@,
            Pad::ClosedHat => "HAT"@,
            Pad::OpenHat => "OPEN"@,
            Pad::Clap => "CLAP"@,
            Pad::LowTom => "TOM L"@,
            Pad::HighTom => "TOM H"@,
            Pad::Rim => "RIM"@,
        }
    }

    pub fn name(self) -> (s: &'static str)
        ensures
            s@ == self.title(),
    {
        match self {
            Pad::Kick => "KICK",
            Pad::Snare => "SNARE",
            Pad::ClosedHat => "HAT",
            Pad::OpenHat => "OPEN",
            Pad::Clap => "CLAP",
            Pad::LowTom => "TOM L",
            Pad::HighTom => "TOM H",
            Pad::Rim => "RIM",
        }
    }
}

/// A number names one value: each survives the trip through a settings word.
pub proof fn law_pad_number(a: Pad, b: Pad)
    ensures
        a.number() < 8,
        a.number() == b.number() ==> a == b,
{
}

impl Pad {
    /// The pads that cut each other short: the hats share a pair of cymbals.
    pub open spec fn group(self) -> Option<u8> {
        match self {
            Pad::ClosedHat | Pad::OpenHat => Some(0u8),
            _ => None,
        }
    }

    /// The pads that cut each other short.
    pub fn choke_group(self) -> (g: Option<u8>)
        ensures
            g == self.group(),
    {
        match self {
            Pad::ClosedHat | Pad::OpenHat => Some(0),
            _ => None,
        }
    }

    /// The pattern of the untuned centre frequency.
    pub open spec fn centre(self) -> Single {
        Single {
            bits: match self {
                Pad::Kick => 0x4248_0000,
                Pad::Snare => 0x4334_0000,
                Pad::ClosedHat => 0x45FA_0000,
                Pad::OpenHat => 0x45FA_0000,
                Pad::Clap => 0x4496_0000,
                Pad::LowTom => 0x42C8_0000,
                Pad::HighTom => 0x4334_0000,
                Pad::Rim => 0x4448_0000,
            },
        }
    }

    /// The pattern of the untuned decay.
    pub open spec fn ring(self) -> Single {
        Single {
            bits: match self {
                Pad::Kick => 0x3EAE_147B,
                Pad::Snare => 0x3E42_8F5C,
                Pad::ClosedHat => 0x3D38_51EC,
                Pad::OpenHat => 0x3EC2_8F5C,
                Pad::Clap => 0x3E61_47AE,
                Pad::LowTom => 0x3ECC_CCCD,
                Pad::HighTom => 0x3E99_999A,
                Pad::Rim => 0x3CE5_6042,
            },
        }
    }

    /// The pad's untuned centre frequency, in hertz. Noise-based pads read this
    /// as the centre of their band-pass rather than a pitch.
    pub fn base_hz(self) -> (x: Single)
        ensures
            x == self.centre(),
    {
        let bits: u32 = match self {
            Pad::Kick => 0x4248_0000,  // 50
            Pad::Snare => 0x4334_0000,  // 180
            Pad::ClosedHat => 0x45FA_0000,  // 8000
            Pad::OpenHat => 0x45FA_0000,  // 8000
            Pad::Clap => 0x4496_0000,  // 1200
            Pad::LowTom => 0x42C8_0000,  // 100
            Pad::HighTom => 0x4334_0000,  // 180
            Pad::Rim => 0x4448_0000,  // 800
        };
        Single { bits }
    }

    /// Untuned decay in seconds, before the per-pad decay scale.
    pub fn base_decay(self) -> (x: Single)
        ensures
            x == self.ring(),
    {
        let bits: u32 = match self {
            Pad::Kick => 0x3EAE_147B,  // 0.34
            Pad::Snare => 0x3E42_8F5C,  // 0.19
            Pad::ClosedHat => 0x3D38_51EC,  // 0.045
            Pad::OpenHat => 0x3EC2_8F5C,  // 0.38
            Pad::Clap => 0x3E61_47AE,  // 0.22
            Pad::LowTom => 0x3ECC_CCCD,  // 0.4
            Pad::HighTom => 0x3E99_999A,  // 0.3
            Pad::Rim => 0x3CE5_6042,  // 0.028
        };
        Single { bits }
    }
}

} // verus!
