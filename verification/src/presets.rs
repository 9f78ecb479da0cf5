//! Starting-point patches.
//!
//! A handful of recognisable sounds gives somewhere to start and something to take
//! apart. A preset sets the *patch*: oscillators, filter, envelopes, LFO, voice
//! mode, output and effects. It leaves the sequencer and the generator alone:
//! tempo, key, scale and pattern length belong to the piece being written, not to
//! the sound.

use crate::delay::NoteDivision;
use crate::filter::{Slope, SvfMode};
use crate::lfo::{LfoTarget, LfoWave};
use crate::osc::Waveform;
use crate::params::{of, AtomicBool32, AtomicEnum, AtomicF32, SharedParams, VoiceMode};
use vstd::prelude::*;

verus! {

/// A named patch.
#[derive(Debug, Clone, Copy, PartialEq, Eq, Structural)]
pub enum Preset {
    Init,
    WarmPad,
    AcidBass,
    Pluck,
    Brass,
    GlassBell,
    SubBass,
    Wind,
}

/// Every preset, in the order a panel shows them.
pub const ALL: [Preset; 8] = [
    Preset::Init,
    Preset::WarmPad,
    Preset::AcidBass,
    Preset::Pluck,
    Preset::Brass,
    Preset::GlassBell,
    Preset::SubBass,
    Preset::Wind,
];

/// A knob at a setting, by its pattern.
pub open spec fn knob(bits: u32) -> AtomicF32 {
    AtomicF32 { word: bits }
}

/// A selector at a choice.
pub open spec fn choice(n: u32) -> AtomicEnum {
    AtomicEnum { word: n }
}

/// A switch at a position.
pub open spec fn switch(on: bool) -> AtomicBool32 {
    AtomicBool32 {
        word: if on {
            1
        } else {
            0
        },
    }
}

/// The settings every preset starts from, so that a patch never inherits half of
/// the one before it.
pub open spec fn cleared(s: SharedParams) -> SharedParams {
    SharedParams {
        osc1_wave: choice(Waveform::Saw.number()),
        osc1_level: knob(0x3F4C_CCCD),  // 0.8
        osc1_semitones: knob(0x0000_0000),  // 0.0
        osc1_detune: knob(0x0000_0000),  // 0.0
        osc2_wave: choice(Waveform::Saw.number()),
        osc2_level: knob(0x0000_0000),  // 0.0
        osc2_semitones: knob(0x0000_0000),  // 0.0
        osc2_detune: knob(0x0000_0000),  // 0.0
        pulse_width: knob(0x3F00_0000),  // 0.5
        sub_level: knob(0x0000_0000),  // 0.0
        noise_level: knob(0x0000_0000),  // 0.0
        filter_mode: choice(SvfMode::Lowpass.number()),
        filter_slope: choice(Slope::Db24.number()),
        cutoff: knob(0x44FA_0000),  // 2000.0
        resonance: knob(0x3E4C_CCCD),  // 0.2
        filter_env_amount: knob(0x0000_0000),  // 0.0
        filter_key_track: knob(0x3EB3_3333),  // 0.35
        filter_velocity: knob(0x3E99_999A),  // 0.3
        amp_attack: knob(0x3BA3_D70A),  // 0.005
        amp_decay: knob(0x3E80_0000),  // 0.25
        amp_sustain: knob(0x3F33_3333),  // 0.7
        amp_release: knob(0x3E99_999A),  // 0.3
        filter_attack: knob(0x3B03_126F),  // 0.002
        filter_decay: knob(0x3E99_999A),  // 0.3
        filter_sustain: knob(0x3E99_999A),  // 0.3
        filter_release: knob(0x3E99_999A),  // 0.3
        lfo_target: choice(LfoTarget::Off.number()),
        lfo_wave: choice(LfoWave::Sine.number()),
        lfo_rate: knob(0x40A0_0000),  // 5.0
        lfo_depth: knob(0x0000_0000),  // 0.0
        mod_wheel: knob(0x0000_0000),  // 0.0
        voice_mode: choice(VoiceMode::Poly.number()),
        max_voices: choice(16),
        glide: knob(0x0000_0000),  // 0.0
        legato: switch(true),
        pitch_bend: knob(0x0000_0000),  // 0.0
        drive: knob(0x3F80_0000),  // 1.0
        master_gain: knob(0x3F00_0000),  // 0.5
        delay_mix: knob(0x0000_0000),  // 0.0
        delay_sync: switch(false),
        delay_time: knob(0x3EC0_0000),  // 0.375
        delay_division: choice(NoteDivision::Eighth.number()),
        delay_feedback: knob(0x3EB3_3333),  // 0.35
        delay_damping: knob(0x3E99_999A),  // 0.3
        delay_ping_pong: switch(false),
        reverb_mix: knob(0x0000_0000),  // 0.0
        reverb_size: knob(0x3F00_0000),  // 0.5
        reverb_damping: knob(0x3F00_0000),  // 0.5
        reverb_predelay: knob(0x3CA3_D70A),  // 0.02
        reverb_width: knob(0x3F80_0000),  // 1.0
        ..s
    }
}

/// Two saws a few cents apart beat slowly against each other. That beating is the
/// entire difference between a pad and a buzz.
pub open spec fn warm_pad_of(s: SharedParams) -> SharedParams {
    SharedParams {
        osc2_level: knob(0x3F33_3333),  // 0.7
        osc2_detune: knob(0x4110_0000),  // 9.0
        sub_level: knob(0x3E4C_CCCD),  // 0.2
        cutoff: knob(0x44AF_0000),  // 1400.0
        resonance: knob(0x3E19_999A),  // 0.15
        filter_env_amount: knob(0x3F99_999A),  // 1.2
        filter_attack: knob(0x3F99_999A),  // 1.2
        filter_decay: knob(0x4000_0000),  // 2.0
        filter_sustain: knob(0x3F00_0000),  // 0.5
        amp_attack: knob(0x3F66_6666),  // 0.9
        amp_decay: knob(0x3FC0_0000),  // 1.5
        amp_sustain: knob(0x3F4C_CCCD),  // 0.8
        amp_release: knob(0x3FE6_6666),  // 1.8
        lfo_target: choice(LfoTarget::Cutoff.number()),
        lfo_wave: choice(LfoWave::SmoothRandom.number()),
        lfo_rate: knob(0x3E4C_CCCD),  // 0.2
        lfo_depth: knob(0x3E99_999A),  // 0.3
        master_gain: knob(0x3EB3_3333),  // 0.35
        reverb_mix: knob(0x3ECC_CCCD),  // 0.4
        reverb_size: knob(0x3F4C_CCCD),  // 0.8
        reverb_damping: knob(0x3EE6_6666),  // 0.45
        reverb_predelay: knob(0x3D0F_5C29),  // 0.035
        delay_mix: knob(0x3E19_999A),  // 0.15
        delay_sync: switch(true),
        delay_division: choice(NoteDivision::Quarter.number()),
        delay_feedback: knob(0x3E99_999A),  // 0.3
        delay_damping: knob(0x3F19_999A),  // 0.6
        ..cleared(s)
    }
}

/// Glide plus legato is what makes the slides between notes; without both it is just
/// a mono bass.
pub open spec fn acid_bass_of(s: SharedParams) -> SharedParams {
    SharedParams {
        voice_mode: choice(VoiceMode::Mono.number()),
        legato: switch(true),
        glide: knob(0x3D61_47AE),  // 0.055
        osc1_wave: choice(Waveform::Saw.number()),
        sub_level: knob(0x3E99_999A),  // 0.3
        cutoff: knob(0x438C_0000),  // 280.0
        resonance: knob(0x3F66_6666),  // 0.9
        filter_env_amount: knob(0x4066_6666),  // 3.6
        filter_attack: knob(0x3A83_126F),  // 0.001
        filter_decay: knob(0x3E61_47AE),  // 0.22
        filter_sustain: knob(0x0000_0000),  // 0.0
        amp_attack: knob(0x3B03_126F),  // 0.002
        amp_sustain: knob(0x3F66_6666),  // 0.9
        amp_release: knob(0x3DA3_D70A),  // 0.08
        drive: knob(0x4020_0000),  // 2.5
        master_gain: knob(0x3F00_0000),  // 0.5
        ..cleared(s)
    }
}

/// Zero sustain means the note dies on its own, and the voice frees itself at the end
/// of decay rather than holding silence.
pub open spec fn pluck_of(s: SharedParams) -> SharedParams {
    SharedParams {
        osc2_level: knob(0x3F00_0000),  // 0.5
        osc2_detune: knob(0x40C0_0000),  // 6.0
        cutoff: knob(0x442F_0000),  // 700.0
        resonance: knob(0x3F00_0000),  // 0.5
        filter_env_amount: knob(0x4040_0000),  // 3.0
        filter_decay: knob(0x3E38_51EC),  // 0.18
        filter_sustain: knob(0x0000_0000),  // 0.0
        amp_attack: knob(0x3B03_126F),  // 0.002
        amp_decay: knob(0x3F00_0000),  // 0.5
        amp_sustain: knob(0x0000_0000),  // 0.0
        amp_release: knob(0x3E80_0000),  // 0.25
        filter_velocity: knob(0x3F19_999A),  // 0.6
        master_gain: knob(0x3F00_0000),  // 0.5
        delay_mix: knob(0x3EB3_3333),  // 0.35
        delay_sync: switch(true),
        delay_division: choice(NoteDivision::Eighth.number()),
        delay_feedback: knob(0x3EE6_6666),  // 0.45
        delay_damping: knob(0x3ECC_CCCD),  // 0.4
        delay_ping_pong: switch(true),
        reverb_mix: knob(0x3E38_51EC),  // 0.18
        reverb_size: knob(0x3F0C_CCCD),  // 0.55
        ..cleared(s)
    }
}

/// A filter attack slower than the amplitude attack gives brass its swell into the
/// note.
pub open spec fn brass_of(s: SharedParams) -> SharedParams {
    SharedParams {
        osc1_wave: choice(Waveform::Pulse.number()),
        osc2_wave: choice(Waveform::Saw.number()),
        osc2_level: knob(0x3F19_999A),  // 0.6
        osc2_detune: knob(0xC0E0_0000),  // -7.0
        pulse_width: knob(0x3ED7_0A3D),  // 0.42
        cutoff: knob(0x4416_0000),  // 600.0
        resonance: knob(0x3EB3_3333),  // 0.35
        filter_env_amount: knob(0x4026_6666),  // 2.6
        filter_attack: knob(0x3DB8_51EC),  // 0.09
        filter_decay: knob(0x3F00_0000),  // 0.5
        filter_sustain: knob(0x3F0C_CCCD),  // 0.55
        amp_attack: knob(0x3CA3_D70A),  // 0.02
        amp_sustain: knob(0x3F59_999A),  // 0.85
        amp_release: knob(0x3E80_0000),  // 0.25
        drive: knob(0x3FE6_6666),  // 1.8
        master_gain: knob(0x3ECC_CCCD),  // 0.4
        ..cleared(s)
    }
}

/// A wide, inharmonic interval. Bells are inharmonic; a fifth or an octave would just
/// sound like two notes.
pub open spec fn glass_bell_of(s: SharedParams) -> SharedParams {
    SharedParams {
        osc1_wave: choice(Waveform::Sine.number()),
        osc2_wave: choice(Waveform::Triangle.number()),
        osc2_level: knob(0x3F19_999A),  // 0.6
        osc2_semitones: knob(0x4198_0000),  // 19.0
        osc2_detune: knob(0x4080_0000),  // 4.0
        filter_mode: choice(SvfMode::Bandpass.number()),
        filter_slope: choice(Slope::Db12.number()),
        cutoff: knob(0x4522_8000),  // 2600.0
        resonance: knob(0x3F0C_CCCD),  // 0.55
        filter_env_amount: knob(0x3FC0_0000),  // 1.5
        filter_decay: knob(0x3F99_999A),  // 1.2
        filter_sustain: knob(0x3DCC_CCCD),  // 0.1
        amp_attack: knob(0x3A83_126F),  // 0.001
        amp_decay: knob(0x4020_0000),  // 2.5
        amp_sustain: knob(0x0000_0000),  // 0.0
        amp_release: knob(0x4000_0000),  // 2.0
        master_gain: knob(0x3EE6_6666),  // 0.45
        reverb_mix: knob(0x3EE6_6666),  // 0.45
        reverb_size: knob(0x3F59_999A),  // 0.85
        reverb_damping: knob(0x3E4C_CCCD),  // 0.2
        reverb_predelay: knob(0x3C23_D70A),  // 0.01
        reverb_width: knob(0x3F80_0000),  // 1.0
        ..cleared(s)
    }
}

/// No key tracking: a sub should be the same weight at every pitch, not brighter as it
/// goes up.
pub open spec fn sub_bass_of(s: SharedParams) -> SharedParams {
    SharedParams {
        voice_mode: choice(VoiceMode::Mono.number()),
        osc1_wave: choice(Waveform::Sine.number()),
        osc1_level: knob(0x3F66_6666),  // 0.9
        sub_level: knob(0x3F00_0000),  // 0.5
        cutoff: knob(0x43A0_0000),  // 320.0
        resonance: knob(0x3D4C_CCCD),  // 0.05
        filter_env_amount: knob(0x0000_0000),  // 0.0
        filter_key_track: knob(0x0000_0000),  // 0.0
        amp_attack: knob(0x3C03_126F),  // 0.008
        amp_sustain: knob(0x3F80_0000),  // 1.0
        amp_release: knob(0x3DF5_C28F),  // 0.12
        master_gain: knob(0x3F00_0000),  // 0.5
        ..cleared(s)
    }
}

/// No oscillators at all: the pitch comes entirely from where the resonant bandpass
/// sits, which is what makes it whistle rather than hum.
pub open spec fn wind_of(s: SharedParams) -> SharedParams {
    SharedParams {
        osc1_level: knob(0x0000_0000),  // 0.0
        osc2_level: knob(0x0000_0000),  // 0.0
        noise_level: knob(0x3F4C_CCCD),  // 0.8
        filter_mode: choice(SvfMode::Bandpass.number()),
        filter_slope: choice(Slope::Db24.number()),
        cutoff: knob(0x4461_0000),  // 900.0
        resonance: knob(0x3F59_999A),  // 0.85
        filter_key_track: knob(0x3F80_0000),  // 1.0
        filter_env_amount: knob(0x3F19_999A),  // 0.6
        filter_attack: knob(0x3F19_999A),  // 0.6
        amp_attack: knob(0x3F33_3333),  // 0.7
        amp_decay: knob(0x3F80_0000),  // 1.0
        amp_sustain: knob(0x3F33_3333),  // 0.7
        amp_release: knob(0x3F99_999A),  // 1.2
        lfo_target: choice(LfoTarget::Cutoff.number()),
        lfo_wave: choice(LfoWave::SmoothRandom.number()),
        lfo_rate: knob(0x3EE6_6666),  // 0.45
        lfo_depth: knob(0x3F00_0000),  // 0.5
        master_gain: knob(0x3ECC_CCCD),  // 0.4
        reverb_mix: knob(0x3F0C_CCCD),  // 0.55
        reverb_size: knob(0x3F73_3333),  // 0.95
        reverb_damping: knob(0x3EB3_3333),  // 0.35
        reverb_predelay: knob(0x3D4C_CCCD),  // 0.05
        ..cleared(s)
    }
}

impl Preset {
    /// A block with the preset's patch in it.
    pub open spec fn patched(self, s: SharedParams) -> SharedParams {
        match self {
            Preset::Init => cleared(s),
            Preset::WarmPad => warm_pad_of(s),
            Preset::AcidBass => acid_bass_of(s),
            Preset::Pluck => pluck_of(s),
            Preset::Brass => brass_of(s),
            Preset::GlassBell => glass_bell_of(s),
            Preset::SubBass => sub_bass_of(s),
            Preset::Wind => wind_of(s),
        }
    }

    pub open spec fn title(self) -> Seq<char> {
        match self {
            Preset::Init => "Init"@,
            Preset::WarmPad => "Warm Pad"@,
            Preset::AcidBass => "Acid Bass"@,
            Preset::Pluck => "Pluck"@,
            Preset::Brass => "Brass"@,
            Preset::GlassBell => "Glass Bell"@,
            Preset::SubBass => "Sub Bass"@,
            Preset::Wind => "Wind"@,
        }
    }

    pub fn name(self) -> (s: &'static str)
        ensures
            s@ == self.title(),
    {
        match self {
            Preset::Init => "Init",
            Preset::WarmPad => "Warm Pad",
            Preset::AcidBass => "Acid Bass",
            Preset::Pluck => "Pluck",
            Preset::Brass => "Brass",
            Preset::GlassBell => "Glass Bell",
            Preset::SubBass => "Sub Bass",
            Preset::Wind => "Wind",
        }
    }

    pub open spec fn blurb(self) -> Seq<char> {
        match self {
            Preset::Init => "One saw, gentle filter. The blank page."@,
            Preset::WarmPad => "Slow attack, detuned saws, drifting filter."@,
            Preset::AcidBass => "Mono, high resonance, short filter decay, glide."@,
            Preset::Pluck => "Fast decay, filter envelope, no sustain."@,
            Preset::Brass => "Slow-ish filter attack, pulse waves, drive."@,
            Preset::GlassBell => "Wide detune, bandpass, long release."@,
            Preset::SubBass => "Sine plus sub, lowpass, nothing else."@,
            Preset::Wind => "Noise through a resonant bandpass, no oscillators."@,
        }
    }

    pub fn description(self) -> (s: &'static str)
        ensures
            s@ == self.blurb(),
    {
        match self {
            Preset::Init => "One saw, gentle filter. The blank page.",
            Preset::WarmPad => "Slow attack, detuned saws, drifting filter.",
            Preset::AcidBass => "Mono, high resonance, short filter decay, glide.",
            Preset::Pluck => "Fast decay, filter envelope, no sustain.",
            Preset::Brass => "Slow-ish filter attack, pulse waves, drive.",
            Preset::GlassBell => "Wide detune, bandpass, long release.",
            Preset::SubBass => "Sine plus sub, lowpass, nothing else.",
            Preset::Wind => "Noise through a resonant bandpass, no oscillators.",
        }
    }

    /// Loads the patch.
    pub fn apply(self, p: &mut SharedParams)
        ensures
            *final(p) == self.patched(*old(p)),
    {
        match self {
            Preset::Init => reset(p),
            Preset::WarmPad => warm_pad(p),
            Preset::AcidBass => acid_bass(p),
            Preset::Pluck => pluck(p),
            Preset::Brass => brass(p),
            Preset::GlassBell => glass_bell(p),
            Preset::SubBass => sub_bass(p),
            Preset::Wind => wind(p),
        }
    }
}

/// Puts every setting that a preset may change back to where a patch starts, and
/// touches no other.
pub fn reset(p: &mut SharedParams)
    ensures
        *final(p) == cleared(*old(p)),
{
    p.osc1_wave.set(Waveform::Saw.to_u32());
    p.osc1_level.set(of(0x3F4C_CCCD));
    p.osc1_semitones.set(of(0x0000_0000));
    p.osc1_detune.set(of(0x0000_0000));
    p.osc2_wave.set(Waveform::Saw.to_u32());
    p.osc2_level.set(of(0x0000_0000));
    p.osc2_semitones.set(of(0x0000_0000));
    p.osc2_detune.set(of(0x0000_0000));
    p.pulse_width.set(of(0x3F00_0000));
    p.sub_level.set(of(0x0000_0000));
    p.noise_level.set(of(0x0000_0000));
    p.filter_mode.set(SvfMode::Lowpass.to_u32());
    p.filter_slope.set(Slope::Db24.to_u32());
    p.cutoff.set(of(0x44FA_0000));
    p.resonance.set(of(0x3E4C_CCCD));
    p.filter_env_amount.set(of(0x0000_0000));
    p.filter_key_track.set(of(0x3EB3_3333));
    p.filter_velocity.set(of(0x3E99_999A));
    p.amp_attack.set(of(0x3BA3_D70A));
    p.amp_decay.set(of(0x3E80_0000));
    p.amp_sustain.set(of(0x3F33_3333));
    p.amp_release.set(of(0x3E99_999A));
    p.filter_attack.set(of(0x3B03_126F));
    p.filter_decay.set(of(0x3E99_999A));
    p.filter_sustain.set(of(0x3E99_999A));
    p.filter_release.set(of(0x3E99_999A));
    p.lfo_target.set(LfoTarget::Off.to_u32());
    p.lfo_wave.set(LfoWave::Sine.to_u32());
    p.lfo_rate.set(of(0x40A0_0000));
    p.lfo_depth.set(of(0x0000_0000));
    p.mod_wheel.set(of(0x0000_0000));
    p.voice_mode.set(VoiceMode::Poly.to_u32());
    p.max_voices.set(16);
    p.glide.set(of(0x0000_0000));
    p.legato.set(true);
    p.pitch_bend.set(of(0x0000_0000));
    p.drive.set(of(0x3F80_0000));
    p.master_gain.set(of(0x3F00_0000));
    p.delay_mix.set(of(0x0000_0000));
    p.delay_sync.set(false);
    p.delay_time.set(of(0x3EC0_0000));
    p.delay_division.set(NoteDivision::Eighth.to_u32());
    p.delay_feedback.set(of(0x3EB3_3333));
    p.delay_damping.set(of(0x3E99_999A));
    p.delay_ping_pong.set(false);
    p.reverb_mix.set(of(0x0000_0000));
    p.reverb_size.set(of(0x3F00_0000));
    p.reverb_damping.set(of(0x3F00_0000));
    p.reverb_predelay.set(of(0x3CA3_D70A));
    p.reverb_width.set(of(0x3F80_0000));
}

fn warm_pad(p: &mut SharedParams)
    ensures
        *final(p) == warm_pad_of(*old(p)),
{
    reset(p);
    p.osc2_level.set(of(0x3F33_3333));
    p.osc2_detune.set(of(0x4110_0000));
    p.sub_level.set(of(0x3E4C_CCCD));
    p.cutoff.set(of(0x44AF_0000));
    p.resonance.set(of(0x3E19_999A));
    p.filter_env_amount.set(of(0x3F99_999A));
    p.filter_attack.set(of(0x3F99_999A));
    p.filter_decay.set(of(0x4000_0000));
    p.filter_sustain.set(of(0x3F00_0000));
    p.amp_attack.set(of(0x3F66_6666));
    p.amp_decay.set(of(0x3FC0_0000));
    p.amp_sustain.set(of(0x3F4C_CCCD));
    p.amp_release.set(of(0x3FE6_6666));
    p.lfo_target.set(LfoTarget::Cutoff.to_u32());
    p.lfo_wave.set(LfoWave::SmoothRandom.to_u32());
    p.lfo_rate.set(of(0x3E4C_CCCD));
    p.lfo_depth.set(of(0x3E99_999A));
    p.master_gain.set(of(0x3EB3_3333));
    p.reverb_mix.set(of(0x3ECC_CCCD));
    p.reverb_size.set(of(0x3F4C_CCCD));
    p.reverb_damping.set(of(0x3EE6_6666));
    p.reverb_predelay.set(of(0x3D0F_5C29));
    p.delay_mix.set(of(0x3E19_999A));
    p.delay_sync.set(true);
    p.delay_division.set(NoteDivision::Quarter.to_u32());
    p.delay_feedback.set(of(0x3E99_999A));
    p.delay_damping.set(of(0x3F19_999A));
}

fn acid_bass(p: &mut SharedParams)
    ensures
        *final(p) == acid_bass_of(*old(p)),
{
    reset(p);
    p.voice_mode.set(VoiceMode::Mono.to_u32());
    p.legato.set(true);
    p.glide.set(of(0x3D61_47AE));
    p.osc1_wave.set(Waveform::Saw.to_u32());
    p.sub_level.set(of(0x3E99_999A));
    p.cutoff.set(of(0x438C_0000));
    p.resonance.set(of(0x3F66_6666));
    p.filter_env_amount.set(of(0x4066_6666));
    p.filter_attack.set(of(0x3A83_126F));
    p.filter_decay.set(of(0x3E61_47AE));
    p.filter_sustain.set(of(0x0000_0000));
    p.amp_attack.set(of(0x3B03_126F));
    p.amp_sustain.set(of(0x3F66_6666));
    p.amp_release.set(of(0x3DA3_D70A));
    p.drive.set(of(0x4020_0000));
    p.master_gain.set(of(0x3F00_0000));
}

fn pluck(p: &mut SharedParams)
    ensures
        *final(p) == pluck_of(*old(p)),
{
    reset(p);
    p.osc2_level.set(of(0x3F00_0000));
    p.osc2_detune.set(of(0x40C0_0000));
    p.cutoff.set(of(0x442F_0000));
    p.resonance.set(of(0x3F00_0000));
    p.filter_env_amount.set(of(0x4040_0000));
    p.filter_decay.set(of(0x3E38_51EC));
    p.filter_sustain.set(of(0x0000_0000));
    p.amp_attack.set(of(0x3B03_126F));
    p.amp_decay.set(of(0x3F00_0000));
    p.amp_sustain.set(of(0x0000_0000));
    p.amp_release.set(of(0x3E80_0000));
    p.filter_velocity.set(of(0x3F19_999A));
    p.master_gain.set(of(0x3F00_0000));
    p.delay_mix.set(of(0x3EB3_3333));
    p.delay_sync.set(true);
    p.delay_division.set(NoteDivision::Eighth.to_u32());
    p.delay_feedback.set(of(0x3EE6_6666));
    p.delay_damping.set(of(0x3ECC_CCCD));
    p.delay_ping_pong.set(true);
    p.reverb_mix.set(of(0x3E38_51EC));
    p.reverb_size.set(of(0x3F0C_CCCD));
}

fn brass(p: &mut SharedParams)
    ensures
        *final(p) == brass_of(*old(p)),
{
    reset(p);
    p.osc1_wave.set(Waveform::Pulse.to_u32());
    p.osc2_wave.set(Waveform::Saw.to_u32());
    p.osc2_level.set(of(0x3F19_999A));
    p.osc2_detune.set(of(0xC0E0_0000));
    p.pulse_width.set(of(0x3ED7_0A3D));
    p.cutoff.set(of(0x4416_0000));
    p.resonance.set(of(0x3EB3_3333));
    p.filter_env_amount.set(of(0x4026_6666));
    p.filter_attack.set(of(0x3DB8_51EC));
    p.filter_decay.set(of(0x3F00_0000));
    p.filter_sustain.set(of(0x3F0C_CCCD));
    p.amp_attack.set(of(0x3CA3_D70A));
    p.amp_sustain.set(of(0x3F59_999A));
    p.amp_release.set(of(0x3E80_0000));
    p.drive.set(of(0x3FE6_6666));
    p.master_gain.set(of(0x3ECC_CCCD));
}

fn glass_bell(p: &mut SharedParams)
    ensures
        *final(p) == glass_bell_of(*old(p)),
{
    reset(p);
    p.osc1_wave.set(Waveform::Sine.to_u32());
    p.osc2_wave.set(Waveform::Triangle.to_u32());
    p.osc2_level.set(of(0x3F19_999A));
    p.osc2_semitones.set(of(0x4198_0000));
    p.osc2_detune.set(of(0x4080_0000));
    p.filter_mode.set(SvfMode::Bandpass.to_u32());
    p.filter_slope.set(Slope::Db12.to_u32());
    p.cutoff.set(of(0x4522_8000));
    p.resonance.set(of(0x3F0C_CCCD));
    p.filter_env_amount.set(of(0x3FC0_0000));
    p.filter_decay.set(of(0x3F99_999A));
    p.filter_sustain.set(of(0x3DCC_CCCD));
    p.amp_attack.set(of(0x3A83_126F));
    p.amp_decay.set(of(0x4020_0000));
    p.amp_sustain.set(of(0x0000_0000));
    p.amp_release.set(of(0x4000_0000));
    p.master_gain.set(of(0x3EE6_6666));
    p.reverb_mix.set(of(0x3EE6_6666));
    p.reverb_size.set(of(0x3F59_999A));
    p.reverb_damping.set(of(0x3E4C_CCCD));
    p.reverb_predelay.set(of(0x3C23_D70A));
    p.reverb_width.set(of(0x3F80_0000));
}

fn sub_bass(p: &mut SharedParams)
    ensures
        *final(p) == sub_bass_of(*old(p)),
{
    reset(p);
    p.voice_mode.set(VoiceMode::Mono.to_u32());
    p.osc1_wave.set(Waveform::Sine.to_u32());
    p.osc1_level.set(of(0x3F66_6666));
    p.sub_level.set(of(0x3F00_0000));
    p.cutoff.set(of(0x43A0_0000));
    p.resonance.set(of(0x3D4C_CCCD));
    p.filter_env_amount.set(of(0x0000_0000));
    p.filter_key_track.set(of(0x0000_0000));
    p.amp_attack.set(of(0x3C03_126F));
    p.amp_sustain.set(of(0x3F80_0000));
    p.amp_release.set(of(0x3DF5_C28F));
    p.master_gain.set(of(0x3F00_0000));
}

fn wind(p: &mut SharedParams)
    ensures
        *final(p) == wind_of(*old(p)),
{
    reset(p);
    p.osc1_level.set(of(0x0000_0000));
    p.osc2_level.set(of(0x0000_0000));
    p.noise_level.set(of(0x3F4C_CCCD));
    p.filter_mode.set(SvfMode::Bandpass.to_u32());
    p.filter_slope.set(Slope::Db24.to_u32());
    p.cutoff.set(of(0x4461_0000));
    p.resonance.set(of(0x3F59_999A));
    p.filter_key_track.set(of(0x3F80_0000));
    p.filter_env_amount.set(of(0x3F19_999A));
    p.filter_attack.set(of(0x3F19_999A));
    p.amp_attack.set(of(0x3F33_3333));
    p.amp_decay.set(of(0x3F80_0000));
    p.amp_sustain.set(of(0x3F33_3333));
    p.amp_release.set(of(0x3F99_999A));
    p.lfo_target.set(LfoTarget::Cutoff.to_u32());
    p.lfo_wave.set(LfoWave::SmoothRandom.to_u32());
    p.lfo_rate.set(of(0x3EE6_6666));
    p.lfo_depth.set(of(0x3F00_0000));
    p.master_gain.set(of(0x3ECC_CCCD));
    p.reverb_mix.set(of(0x3F0C_CCCD));
    p.reverb_size.set(of(0x3F73_3333));
    p.reverb_damping.set(of(0x3EB3_3333));
    p.reverb_predelay.set(of(0x3D4C_CCCD));
}

/// Whether two blocks differ in nothing but the patch.
pub open spec fn same_beyond_the_sound(a: SharedParams, b: SharedParams) -> bool {
    b == (SharedParams {
        osc1_wave: b.osc1_wave,
        osc1_level: b.osc1_level,
        osc1_semitones: b.osc1_semitones,
        osc1_detune: b.osc1_detune,
        osc2_wave: b.osc2_wave,
        osc2_level: b.osc2_level,
        osc2_semitones: b.osc2_semitones,
        osc2_detune: b.osc2_detune,
        pulse_width: b.pulse_width,
        sub_level: b.sub_level,
        noise_level: b.noise_level,
        filter_mode: b.filter_mode,
        filter_slope: b.filter_slope,
        cutoff: b.cutoff,
        resonance: b.resonance,
        filter_env_amount: b.filter_env_amount,
        filter_key_track: b.filter_key_track,
        filter_velocity: b.filter_velocity,
        amp_attack: b.amp_attack,
        amp_decay: b.amp_decay,
        amp_sustain: b.amp_sustain,
        amp_release: b.amp_release,
        filter_attack: b.filter_attack,
        filter_decay: b.filter_decay,
        filter_sustain: b.filter_sustain,
        filter_release: b.filter_release,
        lfo_target: b.lfo_target,
        lfo_wave: b.lfo_wave,
        lfo_rate: b.lfo_rate,
        lfo_depth: b.lfo_depth,
        mod_wheel: b.mod_wheel,
        voice_mode: b.voice_mode,
        max_voices: b.max_voices,
        glide: b.glide,
        legato: b.legato,
        pitch_bend: b.pitch_bend,
        drive: b.drive,
        master_gain: b.master_gain,
        delay_mix: b.delay_mix,
        delay_sync: b.delay_sync,
        delay_time: b.delay_time,
        delay_division: b.delay_division,
        delay_feedback: b.delay_feedback,
        delay_damping: b.delay_damping,
        delay_ping_pong: b.delay_ping_pong,
        reverb_mix: b.reverb_mix,
        reverb_size: b.reverb_size,
        reverb_damping: b.reverb_damping,
        reverb_predelay: b.reverb_predelay,
        reverb_width: b.reverb_width,
        ..a
    })
}

/// Loading a preset leaves nothing of the patch before it: what was loaded earlier
/// makes no difference.
pub proof fn law_presets_fully_reset_the_patch(p: Preset, a: SharedParams, b: SharedParams)
    requires
        same_beyond_the_sound(a, b),
    ensures
        p.patched(a) == p.patched(b),
{
}

/// Loading one preset after another is the same as loading the second alone.
pub proof fn law_the_last_preset_wins(p: Preset, q: Preset, s: SharedParams)
    ensures
        q.patched(p.patched(s)) == q.patched(s),
{
    law_presets_leave_the_rest_alone(p, s);
    law_presets_fully_reset_the_patch(q, s, p.patched(s));
}

/// A preset touches nothing but the patch: tempo, key, scale, pattern and
/// everything else that belongs to the piece stay as they are.
pub proof fn law_presets_leave_the_rest_alone(p: Preset, s: SharedParams)
    ensures
        same_beyond_the_sound(s, p.patched(s)),
        p.patched(s).tempo == s.tempo,
        p.patched(s).steps_per_beat == s.steps_per_beat,
        p.patched(s).seq_playing == s.seq_playing,
        p.patched(s).seq_length == s.seq_length,
        p.patched(s).seq_gate == s.seq_gate,
        p.patched(s).seq_swing == s.seq_swing,
        p.patched(s).gen_root == s.gen_root,
        p.patched(s).gen_scale == s.gen_scale,
        p.patched(s).gen_seed == s.gen_seed,
        p.patched(s).pattern == s.pattern,
        p.patched(s).drum_grid == s.drum_grid,
{
}

/// Every preset can make a sound: an oscillator, the sub or the noise is up, and
/// so is the master level.
pub proof fn law_no_preset_is_silent(p: Preset, s: SharedParams)
    ensures
        ({
            let t = p.patched(s);
            &&& of(0).below(t.osc1_level@) || of(0).below(t.noise_level@)
            &&& of(0).below(t.master_gain@)
        }),
{
}

} // verus!
