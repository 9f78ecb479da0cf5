//! Demonstrations: five patches to render to disk, and a piece that plays itself.

use crate::event::Event;
use crate::filter::{Slope, SvfMode};
use crate::lfo::{LfoTarget, LfoWave};
use crate::osc::Waveform;
use crate::params::{of, SharedParams, VoiceMode};
use crate::presets;
use crate::presets::Preset;
use crate::scale::Scale;
use crate::single::Single;
use vstd::prelude::*;

verus! {

/// A demonstration patch.
#[derive(Debug, Clone, Copy, PartialEq, Eq, Structural)]
pub enum Demo {
    GenerativePentatonic,
    AcidBassline,
    FilterSweepChord,
    FilterModes,
    PwmPad,
}

/// Every demonstration, in the order they are rendered.
pub const DEMOS: [Demo; 5] = [
    Demo::GenerativePentatonic,
    Demo::AcidBassline,
    Demo::FilterSweepChord,
    Demo::FilterModes,
    Demo::PwmPad,
];

/// The responses the filter demonstration goes through.
pub const FILTER_TOUR: [SvfMode; 4] = [
    SvfMode::Lowpass,
    SvfMode::Highpass,
    SvfMode::Bandpass,
    SvfMode::Notch,
];

/// The headline feature: random notes that stay in key and sound composed.
pub open spec fn generative_pentatonic_of(s: SharedParams) -> SharedParams {
    SharedParams {
        gen_scale: presets::choice(Scale::MinorPentatonic.number()),
        gen_root: presets::choice(9),
        gen_octave: presets::choice(3),
        gen_range: presets::choice(2),
        gen_density: presets::knob(0x3F4C_CCCD),  // 0.8
        gen_chord_bias: presets::knob(0x3F33_3333),  // 0.7
        gen_max_jump: presets::knob(0x4040_0000),  // 3.0
        tempo: presets::knob(0x42E0_0000),  // 112.0
        seq_swing: presets::knob(0x3DF5_C28F),  // 0.12
        seq_gate: presets::knob(0x3F0C_CCCD),  // 0.55
        osc1_wave: presets::choice(Waveform::Saw.number()),
        osc2_wave: presets::choice(Waveform::Saw.number()),
        osc2_detune: presets::knob(0x4110_0000),  // 9.0
        cutoff: presets::knob(0x44AF_0000),  // 1400.0
        resonance: presets::knob(0x3ECC_CCCD),  // 0.4
        filter_env_amount: presets::knob(0x400C_CCCD),  // 2.2
        amp_decay: presets::knob(0x3EB3_3333),  // 0.35
        amp_sustain: presets::knob(0x3E80_0000),  // 0.25
        amp_release: presets::knob(0x3E80_0000),  // 0.25
        master_gain: presets::knob(0x3EE6_6666),  // 0.45
        ..s
    }
}

/// Mono, high resonance, short filter envelope, plenty of glide: the sound the whole
/// mono, legato and glide path exists for.
pub open spec fn acid_bassline_of(s: SharedParams) -> SharedParams {
    SharedParams {
        voice_mode: presets::choice(VoiceMode::Mono.number()),
        legato: presets::switch(true),
        glide: presets::knob(0x3D75_C28F),  // 0.06
        gen_scale: presets::choice(Scale::MinorPentatonic.number()),
        gen_root: presets::choice(0),
        gen_octave: presets::choice(1),
        gen_range: presets::choice(2),
        gen_density: presets::knob(0x3F66_6666),  // 0.9
        gen_max_jump: presets::knob(0x4080_0000),  // 4.0
        tempo: presets::knob(0x4302_0000),  // 130.0
        seq_gate: presets::knob(0x3F59_999A),  // 0.85
        osc1_wave: presets::choice(Waveform::Saw.number()),
        osc2_level: presets::knob(0x0000_0000),  // 0.0
        sub_level: presets::knob(0x3E99_999A),  // 0.3
        filter_slope: presets::choice(Slope::Db24.number()),
        cutoff: presets::knob(0x4396_0000),  // 300.0
        resonance: presets::knob(0x3F66_6666),  // 0.9
        filter_env_amount: presets::knob(0x4060_0000),  // 3.5
        filter_decay: presets::knob(0x3E61_47AE),  // 0.22
        filter_sustain: presets::knob(0x0000_0000),  // 0.0
        amp_sustain: presets::knob(0x3F66_6666),  // 0.9
        amp_release: presets::knob(0x3DCC_CCCD),  // 0.1
        drive: presets::knob(0x4020_0000),  // 2.5
        master_gain: presets::knob(0x3F00_0000),  // 0.5
        ..s
    }
}

/// A held chord under a slow filter envelope: polyphony and the envelope shape at
/// once.
pub open spec fn filter_sweep_chord_of(s: SharedParams) -> SharedParams {
    SharedParams {
        seq_playing: presets::switch(false),
        osc1_wave: presets::choice(Waveform::Saw.number()),
        osc2_wave: presets::choice(Waveform::Saw.number()),
        osc2_detune: presets::knob(0xC100_0000),  // -8.0
        cutoff: presets::knob(0x4334_0000),  // 180.0
        resonance: presets::knob(0x3F33_3333),  // 0.7
        filter_env_amount: presets::knob(0x4090_0000),  // 4.5
        filter_attack: presets::knob(0x4000_0000),  // 2.0
        filter_decay: presets::knob(0x4040_0000),  // 3.0
        filter_sustain: presets::knob(0x3ECC_CCCD),  // 0.4
        amp_attack: presets::knob(0x3ECC_CCCD),  // 0.4
        amp_sustain: presets::knob(0x3F80_0000),  // 1.0
        master_gain: presets::knob(0x3EB3_3333),  // 0.35
        ..s
    }
}

/// One sustained note through each filter mode in turn.
pub open spec fn filter_modes_of(s: SharedParams) -> SharedParams {
    SharedParams {
        seq_playing: presets::switch(false),
        osc1_wave: presets::choice(Waveform::Saw.number()),
        osc2_level: presets::knob(0x0000_0000),  // 0.0
        cutoff: presets::knob(0x4461_0000),  // 900.0
        resonance: presets::knob(0x3F19_999A),  // 0.6
        filter_env_amount: presets::knob(0x0000_0000),  // 0.0
        amp_attack: presets::knob(0x3D4C_CCCD),  // 0.05
        amp_sustain: presets::knob(0x3F80_0000),  // 1.0
        master_gain: presets::knob(0x3ECC_CCCD),  // 0.4
        ..s
    }
}

/// Pulse-width modulation on a slow LFO: the classic warm synth-string pad.
pub open spec fn pwm_pad_of(s: SharedParams) -> SharedParams {
    SharedParams {
        seq_playing: presets::switch(false),
        osc1_wave: presets::choice(Waveform::Pulse.number()),
        osc2_wave: presets::choice(Waveform::Pulse.number()),
        osc2_detune: presets::knob(0x40C0_0000),  // 6.0
        pulse_width: presets::knob(0x3F00_0000),  // 0.5
        lfo_target: presets::choice(LfoTarget::PulseWidth.number()),
        lfo_rate: presets::knob(0x3EB3_3333),  // 0.35
        lfo_depth: presets::knob(0x3F4C_CCCD),  // 0.8
        cutoff: presets::knob(0x4509_8000),  // 2200.0
        resonance: presets::knob(0x3E4C_CCCD),  // 0.2
        filter_env_amount: presets::knob(0x3F80_0000),  // 1.0
        amp_attack: presets::knob(0x3F4C_CCCD),  // 0.8
        amp_decay: presets::knob(0x3F80_0000),  // 1.0
        amp_sustain: presets::knob(0x3F4C_CCCD),  // 0.8
        amp_release: presets::knob(0x3FC0_0000),  // 1.5
        master_gain: presets::knob(0x3EB3_3333),  // 0.35
        ..s
    }
}

/// Notes pressed together at one velocity.
pub open spec fn chord(notes: Seq<u8>, velocity: Single) -> Seq<Event> {
    Seq::new(notes.len(), |i: int| Event::NoteOn { note: notes[i], velocity })
}

impl Demo {
    /// A block with the demonstration's settings in it.
    pub open spec fn staged(self, s: SharedParams) -> SharedParams {
        match self {
            Demo::GenerativePentatonic => generative_pentatonic_of(s),
            Demo::AcidBassline => acid_bassline_of(s),
            Demo::FilterSweepChord => filter_sweep_chord_of(s),
            Demo::FilterModes => filter_modes_of(s),
            Demo::PwmPad => pwm_pad_of(s),
        }
    }

    pub open spec fn title(self) -> Seq<char> {
        match self {
            Demo::GenerativePentatonic => "01-generative-pentatonic"@,
            Demo::AcidBassline => "02-acid-bassline"@,
            Demo::FilterSweepChord => "03-filter-sweep-chord"@,
            Demo::FilterModes => "04-filter-modes"@,
            Demo::PwmPad => "05-pwm-pad"@,
        }
    }

    pub fn name(self) -> (s: &'static str)
        ensures
            s@ == self.title(),
    {
        match self {
            Demo::GenerativePentatonic => "01-generative-pentatonic",
            Demo::AcidBassline => "02-acid-bassline",
            Demo::FilterSweepChord => "03-filter-sweep-chord",
            Demo::FilterModes => "04-filter-modes",
            Demo::PwmPad => "05-pwm-pad",
        }
    }

    /// How long it plays.
    pub open spec fn length(self) -> u32 {
        match self {
            Demo::GenerativePentatonic => 12,
            Demo::AcidBassline => 12,
            Demo::FilterSweepChord => 8,
            Demo::FilterModes => 8,
            Demo::PwmPad => 10,
        }
    }

    pub fn seconds(self) -> (n: u32)
        ensures
            n == self.length(),
    {
        match self {
            Demo::GenerativePentatonic => 12,
            Demo::AcidBassline => 12,
            Demo::FilterSweepChord => 8,
            Demo::FilterModes => 8,
            Demo::PwmPad => 10,
        }
    }

    /// What starts it: a chord held, or else the sequencer.
    pub open spec fn opening(self) -> Seq<Event> {
        match self {
            Demo::GenerativePentatonic => seq![Event::ClockStart],
            Demo::AcidBassline => seq![Event::ClockStart],
            Demo::FilterSweepChord => chord(seq![48u8, 55, 60, 63, 67], of(0x3F66_6666)),  // 0.9
            Demo::FilterModes => chord(seq![45u8], of(0x3F80_0000)),  // 1.0
            Demo::PwmPad => chord(seq![50u8, 57, 62, 66], of(0x3F33_3333)),  // 0.7
        }
    }

    pub fn events(self) -> (e: Vec<Event>)
        ensures
            e@ == self.opening(),
    {
        match self {
            Demo::GenerativePentatonic => start(),
            Demo::AcidBassline => start(),
            Demo::FilterSweepChord => press(&[48, 55, 60, 63, 67], of(0x3F66_6666)),
            Demo::FilterModes => press(&[45], of(0x3F80_0000)),
            Demo::PwmPad => press(&[50, 57, 62, 66], of(0x3F33_3333)),
        }
    }

    /// Writes the demonstration's settings.
    pub fn setup(self, p: &mut SharedParams)
        ensures
            *final(p) == self.staged(*old(p)),
    {
        match self {
            Demo::GenerativePentatonic => generative_pentatonic(p),
            Demo::AcidBassline => acid_bassline(p),
            Demo::FilterSweepChord => filter_sweep_chord(p),
            Demo::FilterModes => filter_modes(p),
            Demo::PwmPad => pwm_pad(p),
        }
    }
}

fn start() -> (e: Vec<Event>)
    ensures
        e@ == seq![Event::ClockStart],
{
    let mut e: Vec<Event> = Vec::new();
    e.push(Event::ClockStart);
    assert(e@ =~= seq![Event::ClockStart]);
    e
}

fn press(notes: &[u8], velocity: Single) -> (e: Vec<Event>)
    ensures
        e@ == chord(notes@, velocity),
{
    let mut e: Vec<Event> = Vec::new();
    let mut i: usize = 0;
    while i < notes.len()
        invariant
            i <= notes@.len(),
            e@ == chord(notes@, velocity).take(i as int),
        decreases notes@.len() - i,
    {
        e.push(Event::NoteOn { note: notes[i], velocity });
        assert(e@ =~= chord(notes@, velocity).take(i + 1));
        i = i + 1;
    }
    assert(e@ =~= chord(notes@, velocity));
    e
}

fn generative_pentatonic(p: &mut SharedParams)
    ensures
        *final(p) == generative_pentatonic_of(*old(p)),
{
    p.gen_scale.set(Scale::MinorPentatonic.to_u32());
    p.gen_root.set(9);
    p.gen_octave.set(3);
    p.gen_range.set(2);
    p.gen_density.set(of(0x3F4C_CCCD));
    p.gen_chord_bias.set(of(0x3F33_3333));
    p.gen_max_jump.set(of(0x4040_0000));
    p.tempo.set(of(0x42E0_0000));
    p.seq_swing.set(of(0x3DF5_C28F));
    p.seq_gate.set(of(0x3F0C_CCCD));
    p.osc1_wave.set(Waveform::Saw.to_u32());
    p.osc2_wave.set(Waveform::Saw.to_u32());
    p.osc2_detune.set(of(0x4110_0000));
    p.cutoff.set(of(0x44AF_0000));
    p.resonance.set(of(0x3ECC_CCCD));
    p.filter_env_amount.set(of(0x400C_CCCD));
    p.amp_decay.set(of(0x3EB3_3333));
    p.amp_sustain.set(of(0x3E80_0000));
    p.amp_release.set(of(0x3E80_0000));
    p.master_gain.set(of(0x3EE6_6666));
}

fn acid_bassline(p: &mut SharedParams)
    ensures
        *final(p) == acid_bassline_of(*old(p)),
{
    p.voice_mode.set(VoiceMode::Mono.to_u32());
    p.legato.set(true);
    p.glide.set(of(0x3D75_C28F));
    p.gen_scale.set(Scale::MinorPentatonic.to_u32());
    p.gen_root.set(0);
    p.gen_octave.set(1);
    p.gen_range.set(2);
    p.gen_density.set(of(0x3F66_6666));
    p.gen_max_jump.set(of(0x4080_0000));
    p.tempo.set(of(0x4302_0000));
    p.seq_gate.set(of(0x3F59_999A));
    p.osc1_wave.set(Waveform::Saw.to_u32());
    p.osc2_level.set(of(0x0000_0000));
    p.sub_level.set(of(0x3E99_999A));
    p.filter_slope.set(Slope::Db24.to_u32());
    p.cutoff.set(of(0x4396_0000));
    p.resonance.set(of(0x3F66_6666));
    p.filter_env_amount.set(of(0x4060_0000));
    p.filter_decay.set(of(0x3E61_47AE));
    p.filter_sustain.set(of(0x0000_0000));
    p.amp_sustain.set(of(0x3F66_6666));
    p.amp_release.set(of(0x3DCC_CCCD));
    p.drive.set(of(0x4020_0000));
    p.master_gain.set(of(0x3F00_0000));
}

fn filter_sweep_chord(p: &mut SharedParams)
    ensures
        *final(p) == filter_sweep_chord_of(*old(p)),
{
    p.seq_playing.set(false);
    p.osc1_wave.set(Waveform::Saw.to_u32());
    p.osc2_wave.set(Waveform::Saw.to_u32());
    p.osc2_detune.set(of(0xC100_0000));
    p.cutoff.set(of(0x4334_0000));
    p.resonance.set(of(0x3F33_3333));
    p.filter_env_amount.set(of(0x4090_0000));
    p.filter_attack.set(of(0x4000_0000));
    p.filter_decay.set(of(0x4040_0000));
    p.filter_sustain.set(of(0x3ECC_CCCD));
    p.amp_attack.set(of(0x3ECC_CCCD));
    p.amp_sustain.set(of(0x3F80_0000));
    p.master_gain.set(of(0x3EB3_3333));
}

fn filter_modes(p: &mut SharedParams)
    ensures
        *final(p) == filter_modes_of(*old(p)),
{
    p.seq_playing.set(false);
    p.osc1_wave.set(Waveform::Saw.to_u32());
    p.osc2_level.set(of(0x0000_0000));
    p.cutoff.set(of(0x4461_0000));
    p.resonance.set(of(0x3F19_999A));
    p.filter_env_amount.set(of(0x0000_0000));
    p.amp_attack.set(of(0x3D4C_CCCD));
    p.amp_sustain.set(of(0x3F80_0000));
    p.master_gain.set(of(0x3ECC_CCCD));
}

fn pwm_pad(p: &mut SharedParams)
    ensures
        *final(p) == pwm_pad_of(*old(p)),
{
    p.seq_playing.set(false);
    p.osc1_wave.set(Waveform::Pulse.to_u32());
    p.osc2_wave.set(Waveform::Pulse.to_u32());
    p.osc2_detune.set(of(0x40C0_0000));
    p.pulse_width.set(of(0x3F00_0000));
    p.lfo_target.set(LfoTarget::PulseWidth.to_u32());
    p.lfo_rate.set(of(0x3EB3_3333));
    p.lfo_depth.set(of(0x3F4C_CCCD));
    p.cutoff.set(of(0x4509_8000));
    p.resonance.set(of(0x3E4C_CCCD));
    p.filter_env_amount.set(of(0x3F80_0000));
    p.amp_attack.set(of(0x3F4C_CCCD));
    p.amp_decay.set(of(0x3F80_0000));
    p.amp_sustain.set(of(0x3F4C_CCCD));
    p.amp_release.set(of(0x3FC0_0000));
    p.master_gain.set(of(0x3EB3_3333));
}

/// The patch the jam plays. Two detuned saws are the workhorse synth sound: the
/// beating between them makes it wide rather than thin.
pub open spec fn jam_patch(s: SharedParams) -> SharedParams {
    SharedParams {
        osc1_wave: presets::choice(Waveform::Saw.number()),
        osc2_wave: presets::choice(Waveform::Saw.number()),
        osc2_detune: presets::knob(0x4100_0000),  // 8.0
        sub_level: presets::knob(0x3E80_0000),  // 0.25
        filter_slope: presets::choice(Slope::Db24.number()),
        cutoff: presets::knob(0x4461_0000),  // 900.0
        resonance: presets::knob(0x3EE6_6666),  // 0.45
        filter_env_amount: presets::knob(0x4033_3333),  // 2.8
        filter_attack: presets::knob(0x3B03_126F),  // 0.002
        filter_decay: presets::knob(0x3EB3_3333),  // 0.35
        filter_sustain: presets::knob(0x3E19_999A),  // 0.15
        filter_key_track: presets::knob(0x3ECC_CCCD),  // 0.4
        filter_velocity: presets::knob(0x3F00_0000),  // 0.5
        amp_attack: presets::knob(0x3B83_126F),  // 0.004
        amp_decay: presets::knob(0x3ECC_CCCD),  // 0.4
        amp_sustain: presets::knob(0x3E80_0000),  // 0.25
        amp_release: presets::knob(0x3E99_999A),  // 0.3
        lfo_target: presets::choice(LfoTarget::Cutoff.number()),
        lfo_wave: presets::choice(LfoWave::SmoothRandom.number()),
        lfo_rate: presets::knob(0x3E4C_CCCD),  // 0.2
        lfo_depth: presets::knob(0x3E80_0000),  // 0.25
        voice_mode: presets::choice(VoiceMode::Poly.number()),
        max_voices: presets::choice(8),
        seq_swing: presets::knob(0x3E0F_5C29),  // 0.14
        seq_gate: presets::knob(0x3F0C_CCCD),  // 0.55
        seq_length: presets::choice(16),
        drive: presets::knob(0x3FB3_3333),  // 1.4
        master_gain: presets::knob(0x3EE6_6666),  // 0.45
        ..s
    }
}

/// Loads the jam's patch.
pub fn setup_jam(p: &mut SharedParams)
    ensures
        *final(p) == jam_patch(*old(p)),
{
    p.osc1_wave.set(Waveform::Saw.to_u32());
    p.osc2_wave.set(Waveform::Saw.to_u32());
    p.osc2_detune.set(of(0x4100_0000));
    p.sub_level.set(of(0x3E80_0000));
    p.filter_slope.set(Slope::Db24.to_u32());
    p.cutoff.set(of(0x4461_0000));
    p.resonance.set(of(0x3EE6_6666));
    p.filter_env_amount.set(of(0x4033_3333));
    p.filter_attack.set(of(0x3B03_126F));
    p.filter_decay.set(of(0x3EB3_3333));
    p.filter_sustain.set(of(0x3E19_999A));
    p.filter_key_track.set(of(0x3ECC_CCCD));
    p.filter_velocity.set(of(0x3F00_0000));
    p.amp_attack.set(of(0x3B83_126F));
    p.amp_decay.set(of(0x3ECC_CCCD));
    p.amp_sustain.set(of(0x3E80_0000));
    p.amp_release.set(of(0x3E99_999A));
    p.lfo_target.set(LfoTarget::Cutoff.to_u32());
    p.lfo_wave.set(LfoWave::SmoothRandom.to_u32());
    p.lfo_rate.set(of(0x3E4C_CCCD));
    p.lfo_depth.set(of(0x3E80_0000));
    p.voice_mode.set(VoiceMode::Poly.to_u32());
    p.max_voices.set(8);
    p.seq_swing.set(of(0x3E0F_5C29));
    p.seq_gate.set(of(0x3F0C_CCCD));
    p.seq_length.set(16);
    p.drive.set(of(0x3FB3_3333));
    p.master_gain.set(of(0x3EE6_6666));
}

/// A section of the jam: a key, a scale and a mood.
#[derive(Debug, Clone, Copy)]
pub struct Section {
    pub name: &'static str,
    pub root: u8,
    pub scale: Scale,
    pub tempo: Single,
    pub density: Single,
    pub chord_bias: Single,
}

/// How many sections the jam cycles through.
pub const SECTION_COUNT: usize = 4;

/// Frames from one section to the next: eight seconds at sixty a second.
pub const FRAMES_PER_SECTION: u32 = 480;

/// The sections, in order.
pub open spec fn section_at(index: int) -> Section {
    if index == 0 {
        Section {
            name: "A minor pentatonic, plucky",
            root: 9,
            scale: Scale::MinorPentatonic,
            tempo: of(0x42D8_0000),  // 108.0
            density: of(0x3F40_0000),  // 0.75
            chord_bias: of(0x3F33_3333),  // 0.7
        }
    } else if index == 1 {
        Section {
            name: "D dorian, flowing",
            root: 2,
            scale: Scale::Dorian,
            tempo: of(0x42D8_0000),  // 108.0
            density: of(0x3F66_6666),  // 0.9
            chord_bias: of(0x3EE6_6666),  // 0.45
        }
    } else if index == 2 {
        Section {
            name: "E phrygian dominant, tense",
            root: 4,
            scale: Scale::PhrygianDominant,
            tempo: of(0x42F0_0000),  // 120.0
            density: of(0x3F4C_CCCD),  // 0.8
            chord_bias: of(0x3F4C_CCCD),  // 0.8
        }
    } else {
        Section {
            name: "C hirajoshi, sparse",
            root: 0,
            scale: Scale::Hirajoshi,
            tempo: of(0x42B8_0000),  // 92.0
            density: of(0x3F0C_CCCD),  // 0.55
            chord_bias: of(0x3F19_999A),  // 0.6
        }
    }
}

pub fn section(index: usize) -> (s: Section)
    requires
        index < SECTION_COUNT,
    ensures
        s == section_at(index as int),
{
    if index == 0 {
        Section {
            name: "A minor pentatonic, plucky",
            root: 9,
            scale: Scale::MinorPentatonic,
            tempo: of(0x42D8_0000),  // 108.0
            density: of(0x3F40_0000),  // 0.75
            chord_bias: of(0x3F33_3333),  // 0.7
        }
    } else if index == 1 {
        Section {
            name: "D dorian, flowing",
            root: 2,
            scale: Scale::Dorian,
            tempo: of(0x42D8_0000),  // 108.0
            density: of(0x3F66_6666),  // 0.9
            chord_bias: of(0x3EE6_6666),  // 0.45
        }
    } else if index == 2 {
        Section {
            name: "E phrygian dominant, tense",
            root: 4,
            scale: Scale::PhrygianDominant,
            tempo: of(0x42F0_0000),  // 120.0
            density: of(0x3F4C_CCCD),  // 0.8
            chord_bias: of(0x3F4C_CCCD),  // 0.8
        }
    } else {
        Section {
            name: "C hirajoshi, sparse",
            root: 0,
            scale: Scale::Hirajoshi,
            tempo: of(0x42B8_0000),  // 92.0
            density: of(0x3F0C_CCCD),  // 0.55
            chord_bias: of(0x3F19_999A),  // 0.6
        }
    }
}

/// A block with a section's key and mood in it, and a fresh melody asked for. The
/// same key always plays the same tune, so the piece has a structure that can be
/// recognised the second time round.
pub open spec fn in_section(s: SharedParams, section: Section) -> SharedParams {
    SharedParams {
        gen_root: presets::choice(section.root as u32),
        gen_scale: presets::choice(section.scale.number()),
        gen_density: presets::knob(section.density.bits),
        gen_chord_bias: presets::knob(section.chord_bias.bits),
        tempo: presets::knob(section.tempo.bits),
        gen_octave: presets::choice(3),
        gen_range: presets::choice(2),
        gen_max_jump: presets::knob(0x4040_0000),  // 3.0
        gen_seed: (0x51D_0000 + section.root) as u64,
        gen_regenerate: s.gen_regenerate.wrapping_add(1),
        ..s
    }
}

pub fn apply_section(p: &mut SharedParams, section: &Section)
    ensures
        *final(p) == in_section(*old(p), *section),
{
    p.gen_root.set(section.root as u32);
    p.gen_scale.set(section.scale.to_u32());
    p.gen_density.set(section.density);
    p.gen_chord_bias.set(section.chord_bias);
    p.tempo.set(section.tempo);
    p.gen_octave.set(3);
    p.gen_range.set(2);
    p.gen_max_jump.set(of(0x4040_0000));
    p.gen_seed = 0x51D_0000 + section.root as u64;
    p.regenerate();
}

/// Where the jam has got to.
#[derive(Debug, Clone, Copy, PartialEq, Eq, Structural)]
pub struct Jam {
    pub frames: u32,
    pub section: usize,
}

impl Default for Jam {
    fn default() -> (j: Jam)
        ensures
            j == (Jam { frames: 0, section: 0 }),
    {
        Jam { frames: 0, section: 0 }
    }
}

impl Jam {
    /// Counts one frame. Returns the section to move to, once every eight seconds.
    pub fn advance(&mut self) -> (next: Option<usize>)
        requires
            old(self).frames < u32::MAX,
            old(self).section < SECTION_COUNT,
        ensures
            final(self).frames == old(self).frames + 1,
            final(self).section < SECTION_COUNT,
            next is Some <==> final(self).frames % FRAMES_PER_SECTION == 0,
            match next {
                Some(s) => s == final(self).section && s == (old(self).section + 1)
                    % SECTION_COUNT as int,
                None => final(self).section == old(self).section,
            },
    {
        self.frames = self.frames + 1;
        if self.frames % FRAMES_PER_SECTION != 0 {
            return None;
        }
        self.section = (self.section + 1) % SECTION_COUNT;
        Some(self.section)
    }
}

/// The seed of the melody a program starts with.
pub const STARTUP_SEED: u64 = 0x5EED_1234;

/// A block ready to play: a patch rather than the bare defaults, and a key that
/// gives something musical as soon as the sequencer is started.
pub open spec fn ready_to_play(s: SharedParams) -> SharedParams {
    SharedParams {
        gen_seed: STARTUP_SEED,
        gen_regenerate: s.gen_regenerate.wrapping_add(1),
        ..Preset::Pluck.patched(
            SharedParams {
                gen_root: presets::choice(9),
                gen_scale: presets::choice(Scale::MinorPentatonic.number()),
                gen_octave: presets::choice(3),
                gen_range: presets::choice(2),
                tempo: presets::knob(0x42D8_0000),  // 108.0
                seq_swing: presets::knob(0x3DF5_C28F),  // 0.12
                ..s
            },
        )
    }
}

/// Gets a block ready to play.
pub fn startup(p: &mut SharedParams)
    ensures
        *final(p) == ready_to_play(*old(p)),
{
    p.gen_root.set(9);
    p.gen_scale.set(Scale::MinorPentatonic.to_u32());
    p.gen_octave.set(3);
    p.gen_range.set(2);
    p.tempo.set(of(0x42D8_0000));
    p.seq_swing.set(of(0x3DF5_C28F));
    Preset::Pluck.apply(p);
    p.gen_seed = STARTUP_SEED;
    p.regenerate();
}

} // verus!
