//! The bridge between the control side and the audio side.
//!
//! Every parameter is one word. The control side stores words; the audio side
//! reads them all once per block into a plain `Params` and works from that. A
//! torn read is impossible because each parameter is a single word, and every
//! value is validated on the way out: the control side is untrusted, and must
//! not be able to hand the sound generator a negative cutoff or a NaN.

use crate::bounds;
use crate::delay::NoteDivision;
use crate::drums::pad::PAD_COUNT;
use crate::drums::pattern;
use crate::drums::pattern::{pack_column, unpack_column, Cell, Column, DrumPattern};
use crate::env::AdsrSettings;
use crate::filter::{Slope, SvfMode};
use crate::lfo::{LfoTarget, LfoWave};
use crate::osc::Waveform;
use crate::scale::Scale;
use crate::sequencer::{Pattern, Step, MAX_STEPS};
use crate::single;
use crate::single::Single;
use vstd::prelude::*;

verus! {

/// Hard ceiling on polyphony. The live limit is `Params::max_voices`.
pub const MAX_VOICES: usize = 32;

/// The number with a given pattern.
pub open spec fn spec_of(bits: u32) -> Single {
    Single { bits }
}

/// The number with a given pattern.
#[verifier::when_used_as_spec(spec_of)]
pub fn of(bits: u32) -> (x: Single)
    ensures
        x == of(bits),
{
    Single { bits }
}

/// A value held to a range; a NaN gives the fallback.
#[verifier::opaque]
pub open spec fn held(v: Single, fallback: Single, lo: Single, hi: Single) -> Single {
    if v.nan() {
        fallback
    } else {
        v.clamped(lo, hi)
    }
}

/// A value held to a range; one that is not finite gives the fallback.
#[verifier::opaque]
pub open spec fn settled(v: Single, fallback: Single, lo: Single, hi: Single) -> Single {
    if v.finite() {
        v.clamped(lo, hi)
    } else {
        fallback
    }
}

/// Whether a value is a number inside a range.
#[verifier::opaque]
pub open spec fn within(v: Single, lo: Single, hi: Single) -> bool {
    lo.at_most(v) && v.at_most(hi)
}

/// A value held to `0.0..=1.0`; a NaN gives zero.
pub open spec fn unit(v: Single) -> Single {
    held(v, of(0), of(0), of(0x3F80_0000))
}

/// A number inside its range is left as it is.
pub broadcast proof fn lemma_held_keeps(v: Single, fallback: Single, lo: Single, hi: Single)
    requires
        within(v, lo, hi),
    ensures
        #[trigger] held(v, fallback, lo, hi) == v,
{
    reveal(held);
    reveal(within);
}

/// A finite number inside its range is left as it is.
pub broadcast proof fn lemma_settled_keeps(v: Single, fallback: Single, lo: Single, hi: Single)
    requires
        within(v, lo, hi),
        lo.finite(),
        hi.finite(),
    ensures
        #[trigger] settled(v, fallback, lo, hi) == v,
{
    reveal(settled);
    reveal(within);
}

/// What is held to a range lies in it.
pub broadcast proof fn lemma_settled_within(v: Single, fallback: Single, lo: Single, hi: Single)
    requires
        lo.at_most(fallback),
        fallback.at_most(hi),
    ensures
        #![trigger settled(v, fallback, lo, hi)]
        within(settled(v, fallback, lo, hi), lo, hi),
{
    reveal(settled);
    reveal(within);
}

fn hold(v: Single, fallback: Single, lo: Single, hi: Single) -> (x: Single)
    requires
        lo.at_most(fallback),
        fallback.at_most(hi),
    ensures
        x == held(v, fallback, lo, hi),
        within(x, lo, hi),
{
    proof {
        reveal(held);
        reveal(within);
    }
    if v.is_nan() {
        fallback
    } else {
        v.clamp(lo, hi)
    }
}

/// Clamps to `0.0..=1.0`, mapping NaN to 0.0: a bare clamp would let a NaN
/// through, which is not enough for a value that arrived from elsewhere.
fn clamp01(v: Single) -> (x: Single)
    ensures
        x == unit(v),
        within(x, of(0), of(0x3F80_0000)),
{
    hold(v, of(0), of(0), of(0x3F80_0000))
}

/// Replaces a non-finite value with a fallback and holds the rest to a range.
fn settle(v: Single, fallback: Single, lo: Single, hi: Single) -> (x: Single)
    requires
        lo.at_most(fallback),
        fallback.at_most(hi),
    ensures
        x == settled(v, fallback, lo, hi),
        within(x, lo, hi),
{
    proof {
        reveal(settled);
        reveal(within);
    }
    if v.is_finite() {
        v.clamp(lo, hi)
    } else {
        fallback
    }
}

/// A count held to a range.
pub open spec fn counted(n: int, lo: int, hi: int) -> int {
    if n < lo {
        lo
    } else if n > hi {
        hi
    } else {
        n
    }
}

fn count(n: u32, lo: u32, hi: u32) -> (x: u32)
    requires
        lo <= hi,
    ensures
        x == counted(n as int, lo as int, hi as int),
{
    if n < lo {
        lo
    } else if n > hi {
        hi
    } else {
        n
    }
}

/// A word read as a signed number.
pub open spec fn as_signed(word: u32) -> int {
    if word >= 0x8000_0000 {
        word - 0x1_0000_0000
    } else {
        word as int
    }
}

fn octave(word: u32, hi: i32) -> (x: i32)
    requires
        hi >= 0,
    ensures
        x == counted(as_signed(word), 0, hi as int),
{
    if word >= 0x8000_0000 {
        0
    } else if word > hi as u32 {
        hi
    } else {
        word as i32
    }
}

/// A signed number as a word.
fn signed_word(n: i32) -> (word: u32)
    ensures
        as_signed(word) == n,
{
    if n < 0 {
        (n as i64 + 0x1_0000_0000) as u32
    } else {
        n as u32
    }
}

/// The low word of a size.
fn low_word(n: usize) -> (word: u32)
    ensures
        word == n as int % 0x1_0000_0000,
{
    (n as u64 % 0x1_0000_0000) as u32
}

/// A single precision number in one word, by its pattern. The trip is lossless
/// and total, so no value is lost, including NaN.
#[derive(Debug, Clone, Copy, PartialEq, Eq, Structural)]
pub struct AtomicF32 {
    pub word: u32,
}

impl View for AtomicF32 {
    type V = Single;

    open spec fn view(&self) -> Single {
        Single { bits: self.word }
    }
}

impl AtomicF32 {
    pub fn new(v: Single) -> (a: AtomicF32)
        ensures
            a@ == v,
    {
        AtomicF32 { word: v.bits }
    }

    pub fn get(&self) -> (v: Single)
        ensures
            v == self@,
    {
        Single { bits: self.word }
    }

    pub fn set(&mut self, v: Single)
        ensures
            final(self)@ == v,
    {
        self.word = v.bits;
    }
}

/// A `bool` in one word, for uniformity with the rest.
#[derive(Debug, Clone, Copy, PartialEq, Eq, Structural)]
pub struct AtomicBool32 {
    pub word: u32,
}

impl View for AtomicBool32 {
    type V = bool;

    open spec fn view(&self) -> bool {
        self.word != 0
    }
}

impl AtomicBool32 {
    pub fn new(v: bool) -> (a: AtomicBool32)
        ensures
            a@ == v,
            a.word <= 1,
    {
        AtomicBool32 {
            word: if v {
                1
            } else {
                0
            },
        }
    }

    pub fn get(&self) -> (v: bool)
        ensures
            v == self@,
    {
        self.word != 0
    }

    pub fn set(&mut self, v: bool)
        ensures
            final(self)@ == v,
            final(self).word <= 1,
    {
        self.word = if v {
            1
        } else {
            0
        };
    }
}

/// The number of a choice, or a count, in one word.
#[derive(Debug, Clone, Copy, PartialEq, Eq, Structural)]
pub struct AtomicEnum {
    pub word: u32,
}

impl View for AtomicEnum {
    type V = u32;

    open spec fn view(&self) -> u32 {
        self.word
    }
}

impl AtomicEnum {
    pub fn new(v: u32) -> (a: AtomicEnum)
        ensures
            a@ == v,
    {
        AtomicEnum { word: v }
    }

    pub fn get(&self) -> (v: u32)
        ensures
            v == self@,
    {
        self.word
    }

    pub fn set(&mut self, v: u32)
        ensures
            final(self)@ == v,
    {
        self.word = v;
    }
}

/// How voices are allocated.
#[derive(Debug, Clone, Copy, PartialEq, Eq, Structural)]
pub enum VoiceMode {
    /// One voice. Later notes take over the single voice; releasing one while
    /// another is held falls back to it, which is what makes basslines work.
    Mono,
    /// Many voices, one per held note, with stealing when they run out.
    Poly,
}

impl Default for VoiceMode {
    fn default() -> (x: VoiceMode)
        ensures
            x == VoiceMode::Poly,
    {
        VoiceMode::Poly
    }
}

impl VoiceMode {
    /// The number that a settings word holds for this value.
    pub open spec fn number(self) -> u32 {
        match self {
            VoiceMode::Mono => 0,
            VoiceMode::Poly => 1,
        }
    }

    /// The value with a given number; unknown numbers give `Poly` rather
    /// than a panic, because this runs on the audio thread.
    pub fn from_u32(v: u32) -> (x: VoiceMode)
        ensures
            v < 2 ==> x.number() == v,
            v >= 2 ==> x == VoiceMode::Poly,
    {
        match v {
            0 => VoiceMode::Mono,
            1 => VoiceMode::Poly,
            _ => VoiceMode::Poly,
        }
    }

    /// The number of this value.
    pub fn to_u32(self) -> (v: u32)
        ensures
            v == self.number(),
            v < 2,
    {
        match self {
            VoiceMode::Mono => 0,
            VoiceMode::Poly => 1,
        }
    }

    /// What the value is called on the panel.
    pub open spec fn title(self) -> Seq<char> {
        match self {
            VoiceMode::Mono => "Mono"@,
            VoiceMode::Poly => "Poly"@,
        }
    }

    pub fn name(self) -> (s: &'static str)
        ensures
            s@ == self.title(),
    {
        match self {
            VoiceMode::Mono => "Mono",
            VoiceMode::Poly => "Poly",
        }
    }
}

/// A number names one value: each survives the trip through a settings word.
pub proof fn law_voice_mode_number(a: VoiceMode, b: VoiceMode)
    ensures
        a.number() < 2,
        a.number() == b.number() ==> a == b,
{
}

/// Where the sequencer gets its tempo.
#[derive(Debug, Clone, Copy, PartialEq, Eq, Structural)]
pub enum ClockSource {
    /// Count samples against a tempo set here. Standalone.
    Internal,
    /// Advance on incoming MIDI clock ticks, 24 per quarter note.
    ExternalMidi,
}

impl Default for ClockSource {
    fn default() -> (x: ClockSource)
        ensures
            x == ClockSource::Internal,
    {
        ClockSource::Internal
    }
}

impl ClockSource {
    /// The number that a settings word holds for this value.
    pub open spec fn number(self) -> u32 {
        match self {
            ClockSource::Internal => 0,
            ClockSource::ExternalMidi => 1,
        }
    }

    /// The value with a given number; unknown numbers give `Internal` rather
    /// than a panic, because this runs on the audio thread.
    pub fn from_u32(v: u32) -> (x: ClockSource)
        ensures
            v < 2 ==> x.number() == v,
            v >= 2 ==> x == ClockSource::Internal,
    {
        match v {
            0 => ClockSource::Internal,
            1 => ClockSource::ExternalMidi,
            _ => ClockSource::Internal,
        }
    }

    /// The number of this value.
    pub fn to_u32(self) -> (v: u32)
        ensures
            v == self.number(),
            v < 2,
    {
        match self {
            ClockSource::Internal => 0,
            ClockSource::ExternalMidi => 1,
        }
    }
}

/// A number names one value: each survives the trip through a settings word.
pub proof fn law_clock_source_number(a: ClockSource, b: ClockSource)
    ensures
        a.number() < 2,
        a.number() == b.number() ==> a == b,
{
}

/// Where a compressor's detector listens.
#[derive(Debug, Clone, Copy, PartialEq, Eq, Structural)]
pub enum SidechainSource {
    /// Detect on the signal being compressed.
    Off,
    /// Detect on the mono sum of the dry drum bus.
    DrumBus,
    /// Detect on pad 0 alone.
    Kick,
}

impl Default for SidechainSource {
    fn default() -> (x: SidechainSource)
        ensures
            x == SidechainSource::Off,
    {
        SidechainSource::Off
    }
}

impl SidechainSource {
    /// Every value, in the order of its number.
    pub const ALL: [SidechainSource; 3] = [
        SidechainSource::Off,
        SidechainSource::DrumBus,
        SidechainSource::Kick,
    ];

    /// The number that a settings word holds for this value.
    pub open spec fn number(self) -> u32 {
        match self {
            SidechainSource::Off => 0,
            SidechainSource::DrumBus => 1,
            SidechainSource::Kick => 2,
        }
    }

    /// The value with a given number; unknown numbers give `Off` rather
    /// than a panic, because this runs on the audio thread.
    pub fn from_u32(v: u32) -> (x: SidechainSource)
        ensures
            v < 3 ==> x.number() == v,
            v >= 3 ==> x == SidechainSource::Off,
    {
        match v {
            0 => SidechainSource::Off,
            1 => SidechainSource::DrumBus,
            2 => SidechainSource::Kick,
            _ => SidechainSource::Off,
        }
    }

    /// The number of this value.
    pub fn to_u32(self) -> (v: u32)
        ensures
            v == self.number(),
            v < 3,
    {
        match self {
            SidechainSource::Off => 0,
            SidechainSource::DrumBus => 1,
            SidechainSource::Kick => 2,
        }
    }

    /// What the value is called on the panel.
    pub open spec fn title(self) -> Seq<char> {
        match self {
            SidechainSource::Off => "Off"@,
            SidechainSource::DrumBus => "Drums"@,
            SidechainSource::Kick => "Kick"@,
        }
    }

    pub fn name(self) -> (s: &'static str)
        ensures
            s@ == self.title(),
    {
        match self {
            SidechainSource::Off => "Off",
            SidechainSource::DrumBus => "Drums",
            SidechainSource::Kick => "Kick",
        }
    }
}

/// A number names one value: each survives the trip through a settings word.
pub proof fn law_sidechain_source_number(a: SidechainSource, b: SidechainSource)
    ensures
        a.number() < 3,
        a.number() == b.number() ==> a == b,
{
}

/// One compressor's settings.
#[derive(Debug, Clone, Copy, PartialEq, Eq, Structural)]
pub struct CompressorParams {
    pub on: bool,
    pub threshold_db: Single,
    pub ratio: Single,
    pub attack_ms: Single,
    pub release_ms: Single,
    pub makeup_db: Single,
    pub sidechain: SidechainSource,
}

impl CompressorParams {
    /// The settings of an untouched patch.
    pub open spec fn standard() -> CompressorParams {
        CompressorParams {
            on: false,
            threshold_db: of(0xC140_0000),
            ratio: of(0x4080_0000),
            attack_ms: of(0x4120_0000),
            release_ms: of(0x42C8_0000),
            makeup_db: of(0x0000_0000),
            sidechain: SidechainSource::Off,
        }
    }

    /// Whether every setting is a number in its range.
    pub open spec fn in_range(self) -> bool {
        &&& within(self.threshold_db, of(0xC270_0000), of(0x0000_0000))  // -60 to 0
        &&& within(self.ratio, of(0x3F80_0000), of(0x41A0_0000))  // 1 to 20
        &&& within(self.attack_ms, of(0x3DCC_CCCD), of(0x42C8_0000))  // 0.1 to 100
        &&& within(self.release_ms, of(0x40A0_0000), of(0x447A_0000))  // 5 to 1000
        &&& within(self.makeup_db, of(0x0000_0000), of(0x41C0_0000))  // 0 to 24
    }
}

impl Default for CompressorParams {
    fn default() -> (p: CompressorParams)
        ensures
            p == CompressorParams::standard(),
    {
        CompressorParams {
            on: false,
            threshold_db: of(0xC140_0000),  // -12
            ratio: of(0x4080_0000),  // 4
            attack_ms: of(0x4120_0000),  // 10
            release_ms: of(0x42C8_0000),  // 100
            makeup_db: of(0x0000_0000),  // 0
            sidechain: SidechainSource::Off,
        }
    }
}

/// The words of `CompressorParams`.
#[derive(Debug, Clone, Copy, PartialEq, Eq, Structural)]
pub struct SharedCompressor {
    pub on: AtomicBool32,
    pub threshold_db: AtomicF32,
    pub ratio: AtomicF32,
    pub attack_ms: AtomicF32,
    pub release_ms: AtomicF32,
    pub makeup_db: AtomicF32,
    pub sidechain: AtomicEnum,
}

impl SharedCompressor {
    /// Whether the words hold the given settings.
    pub open spec fn holds(self, p: CompressorParams) -> bool {
        &&& self.on@ == p.on
        &&& self.threshold_db@ == p.threshold_db
        &&& self.ratio@ == p.ratio
        &&& self.attack_ms@ == p.attack_ms
        &&& self.release_ms@ == p.release_ms
        &&& self.makeup_db@ == p.makeup_db
        &&& self.sidechain@ == p.sidechain.number()
    }

    /// Whether reading the words, validated, gives `p`.
    pub open spec fn reads(self, p: CompressorParams) -> bool {
        &&& p.on == self.on@
        &&& p.threshold_db == settled(self.threshold_db@, of(0xC140_0000), of(0xC270_0000), of(0x0000_0000))
        &&& p.ratio == settled(self.ratio@, of(0x4080_0000), of(0x3F80_0000), of(0x41A0_0000))
        &&& p.attack_ms == settled(self.attack_ms@, of(0x4120_0000), of(0x3DCC_CCCD), of(0x42C8_0000))
        &&& p.release_ms == settled(self.release_ms@, of(0x42C8_0000), of(0x40A0_0000), of(0x447A_0000))
        &&& p.makeup_db == settled(self.makeup_db@, of(0x0000_0000), of(0x0000_0000), of(0x41C0_0000))
        &&& p.sidechain.number() == self.sidechain@ || (self.sidechain@ >= 3 && p.sidechain == SidechainSource::Off)
    }

    fn new(p: &CompressorParams) -> (s: SharedCompressor)
        ensures
            s.holds(*p),
    {
        SharedCompressor {
            on: AtomicBool32::new(p.on),
            threshold_db: AtomicF32::new(p.threshold_db),
            ratio: AtomicF32::new(p.ratio),
            attack_ms: AtomicF32::new(p.attack_ms),
            release_ms: AtomicF32::new(p.release_ms),
            makeup_db: AtomicF32::new(p.makeup_db),
            sidechain: AtomicEnum::new(p.sidechain.to_u32()),
        }
    }

    fn snapshot(&self) -> (p: CompressorParams)
        ensures
            self.reads(p),
            p.in_range(),
    {
        CompressorParams {
            on: self.on.get(),
            threshold_db: settle(self.threshold_db.get(), of(0xC140_0000), of(0xC270_0000), of(0x0000_0000)),
            ratio: settle(self.ratio.get(), of(0x4080_0000), of(0x3F80_0000), of(0x41A0_0000)),
            attack_ms: settle(self.attack_ms.get(), of(0x4120_0000), of(0x3DCC_CCCD), of(0x42C8_0000)),
            release_ms: settle(self.release_ms.get(), of(0x42C8_0000), of(0x40A0_0000), of(0x447A_0000)),
            makeup_db: settle(self.makeup_db.get(), of(0x0000_0000), of(0x0000_0000), of(0x41C0_0000)),
            sidechain: SidechainSource::from_u32(self.sidechain.get()),
        }
    }

    fn apply(&mut self, p: &CompressorParams)
        ensures
            final(self).holds(*p),
    {
        self.on.set(p.on);
        self.threshold_db.set(p.threshold_db);
        self.ratio.set(p.ratio);
        self.attack_ms.set(p.attack_ms);
        self.release_ms.set(p.release_ms);
        self.makeup_db.set(p.makeup_db);
        self.sidechain.set(p.sidechain.to_u32());
    }
}

/// Reading settings back is validated, and leaves settings in range as they are.
pub proof fn law_compressor_round_trip(s: SharedCompressor, p: CompressorParams, q: CompressorParams)
    requires
        s.holds(p),
        s.reads(q),
    ensures
        q.in_range(),
        p.in_range() ==> q == p,
{
    broadcast use lemma_settled_keeps, lemma_settled_within;
}

/// The bass voice's settings.
#[derive(Debug, Clone, Copy, PartialEq, Eq, Structural)]
pub struct BassParams {
    /// Saw or pulse.
    pub wave: Waveform,
    /// Transpose, in semitones.
    pub tune: Single,
    /// Where the filter sits before the envelope opens it.
    pub cutoff: Single,
    pub resonance: Single,
    /// How far the envelope opens the filter, in octaves.
    pub env_mod: Single,
    /// How long the filter sweep takes.
    pub decay: Single,
    /// How much an accented step adds.
    pub accent: Single,
    /// How long a tied note takes to reach its new pitch.
    pub slide_time: Single,
}

impl BassParams {
    /// The settings of an untouched patch.
    pub open spec fn standard() -> BassParams {
        BassParams {
            wave: Waveform::Saw,
            tune: of(0x0000_0000),
            cutoff: of(0x4396_0000),
            resonance: of(0x3F33_3333),
            env_mod: of(0x4040_0000),
            decay: of(0x3E99_999A),
            accent: of(0x3F00_0000),
            slide_time: of(0x3D75_C28F),
        }
    }

    /// Whether every setting is a number in its range.
    pub open spec fn in_range(self) -> bool {
        &&& within(self.tune, of(0xC140_0000), of(0x4140_0000))  // -12 to 12
        &&& within(self.cutoff, of(0x41A0_0000), of(0x469C_4000))  // 20 to 20000
        &&& within(self.resonance, of(0x0000_0000), of(0x3F80_0000))  // 0 to 1
        &&& within(self.env_mod, of(0x0000_0000), of(0x40C0_0000))  // 0 to 6
        &&& within(self.decay, of(0x3CA3_D70A), of(0x4000_0000))  // 0.02 to 2
        &&& within(self.accent, of(0x0000_0000), of(0x3F80_0000))  // 0 to 1
        &&& within(self.slide_time, of(0x3C23_D70A), of(0x3F00_0000))  // 0.01 to 0.5
    }
}

impl Default for BassParams {
    fn default() -> (p: BassParams)
        ensures
            p == BassParams::standard(),
    {
        BassParams {
            wave: Waveform::Saw,
            tune: of(0x0000_0000),  // 0
            cutoff: of(0x4396_0000),  // 300
            resonance: of(0x3F33_3333),  // 0.7
            env_mod: of(0x4040_0000),  // 3
            decay: of(0x3E99_999A),  // 0.3
            accent: of(0x3F00_0000),  // 0.5
            slide_time: of(0x3D75_C28F),  // 0.06
        }
    }
}

/// The words of `BassParams`.
#[derive(Debug, Clone, Copy, PartialEq, Eq, Structural)]
pub struct SharedBass {
    pub wave: AtomicEnum,
    pub tune: AtomicF32,
    pub cutoff: AtomicF32,
    pub resonance: AtomicF32,
    pub env_mod: AtomicF32,
    pub decay: AtomicF32,
    pub accent: AtomicF32,
    pub slide_time: AtomicF32,
}

impl SharedBass {
    /// Whether the words hold the given settings.
    pub open spec fn holds(self, p: BassParams) -> bool {
        &&& self.wave@ == p.wave.number()
        &&& self.tune@ == p.tune
        &&& self.cutoff@ == p.cutoff
        &&& self.resonance@ == p.resonance
        &&& self.env_mod@ == p.env_mod
        &&& self.decay@ == p.decay
        &&& self.accent@ == p.accent
        &&& self.slide_time@ == p.slide_time
    }

    /// Whether reading the words, validated, gives `p`.
    pub open spec fn reads(self, p: BassParams) -> bool {
        &&& p.wave.number() == self.wave@ || (self.wave@ >= 5 && p.wave == Waveform::Saw)
        &&& p.tune == settled(self.tune@, of(0x0000_0000), of(0xC140_0000), of(0x4140_0000))
        &&& p.cutoff == settled(self.cutoff@, of(0x4396_0000), of(0x41A0_0000), of(0x469C_4000))
        &&& p.resonance == settled(self.resonance@, of(0x3F33_3333), of(0x0000_0000), of(0x3F80_0000))
        &&& p.env_mod == settled(self.env_mod@, of(0x4040_0000), of(0x0000_0000), of(0x40C0_0000))
        &&& p.decay == settled(self.decay@, of(0x3E99_999A), of(0x3CA3_D70A), of(0x4000_0000))
        &&& p.accent == settled(self.accent@, of(0x3F00_0000), of(0x0000_0000), of(0x3F80_0000))
        &&& p.slide_time == settled(self.slide_time@, of(0x3D75_C28F), of(0x3C23_D70A), of(0x3F00_0000))
    }

    fn new(p: &BassParams) -> (s: SharedBass)
        ensures
            s.holds(*p),
    {
        SharedBass {
            wave: AtomicEnum::new(p.wave.to_u32()),
            tune: AtomicF32::new(p.tune),
            cutoff: AtomicF32::new(p.cutoff),
            resonance: AtomicF32::new(p.resonance),
            env_mod: AtomicF32::new(p.env_mod),
            decay: AtomicF32::new(p.decay),
            accent: AtomicF32::new(p.accent),
            slide_time: AtomicF32::new(p.slide_time),
        }
    }

    fn snapshot(&self) -> (p: BassParams)
        ensures
            self.reads(p),
            p.in_range(),
    {
        BassParams {
            wave: Waveform::from_u32(self.wave.get()),
            tune: settle(self.tune.get(), of(0x0000_0000), of(0xC140_0000), of(0x4140_0000)),
            cutoff: settle(self.cutoff.get(), of(0x4396_0000), of(0x41A0_0000), of(0x469C_4000)),
            resonance: settle(self.resonance.get(), of(0x3F33_3333), of(0x0000_0000), of(0x3F80_0000)),
            env_mod: settle(self.env_mod.get(), of(0x4040_0000), of(0x0000_0000), of(0x40C0_0000)),
            decay: settle(self.decay.get(), of(0x3E99_999A), of(0x3CA3_D70A), of(0x4000_0000)),
            accent: settle(self.accent.get(), of(0x3F00_0000), of(0x0000_0000), of(0x3F80_0000)),
            slide_time: settle(self.slide_time.get(), of(0x3D75_C28F), of(0x3C23_D70A), of(0x3F00_0000)),
        }
    }

    fn apply(&mut self, p: &BassParams)
        ensures
            final(self).holds(*p),
    {
        self.wave.set(p.wave.to_u32());
        self.tune.set(p.tune);
        self.cutoff.set(p.cutoff);
        self.resonance.set(p.resonance);
        self.env_mod.set(p.env_mod);
        self.decay.set(p.decay);
        self.accent.set(p.accent);
        self.slide_time.set(p.slide_time);
    }
}

/// Reading settings back is validated, and leaves settings in range as they are.
pub proof fn law_bass_round_trip(s: SharedBass, p: BassParams, q: BassParams)
    requires
        s.holds(p),
        s.reads(q),
    ensures
        q.in_range(),
        p.in_range() ==> q == p,
{
    broadcast use lemma_settled_keeps, lemma_settled_within;
}

/// Every parameter, as the audio side sees it after one block-boundary read.
#[derive(Debug, Clone, Copy)]
pub struct Params {
    // --- Oscillator 1 ---
    pub osc1_wave: Waveform,
    pub osc1_level: Single,
    /// Coarse tuning, in semitones.
    pub osc1_semitones: Single,
    /// Fine tuning, in cents.
    pub osc1_detune: Single,
    // --- Oscillator 2 ---
    pub osc2_wave: Waveform,
    pub osc2_level: Single,
    pub osc2_semitones: Single,
    pub osc2_detune: Single,
    /// Duty cycle of the pulse wave, shared by both oscillators.
    pub pulse_width: Single,
    /// A square one octave below oscillator 1.
    pub sub_level: Single,
    pub noise_level: Single,
    // --- Filter ---
    pub filter_mode: SvfMode,
    pub filter_slope: Slope,
    pub cutoff: Single,
    pub resonance: Single,
    /// How far the filter envelope moves the cutoff, in octaves.
    pub filter_env_amount: Single,
    /// How much the played note raises the cutoff.
    pub filter_key_track: Single,
    /// How much velocity opens the filter.
    pub filter_velocity: Single,
    // --- Envelopes ---
    pub amp_env: AdsrSettings,
    pub filter_env: AdsrSettings,
    // --- LFO ---
    pub lfo_wave: LfoWave,
    pub lfo_rate: Single,
    pub lfo_depth: Single,
    pub lfo_target: LfoTarget,
    /// Restart the LFO on every note instead of letting it free-run.
    pub lfo_retrigger: bool,
    // --- Voices ---
    pub voice_mode: VoiceMode,
    pub max_voices: usize,
    /// Portamento time in seconds. Zero disables it.
    pub glide: Single,
    /// In mono mode, whether overlapping notes join without restarting the envelopes.
    pub legato: bool,
    /// Pitch bend in semitones, from the wheel.
    pub pitch_bend: Single,
    /// Mod wheel. Adds to the LFO depth.
    pub mod_wheel: Single,
    // --- Output ---
    pub master_gain: Single,
    /// Level of the melody bus alone.
    pub synth_gain: Single,
    /// How much of the compressed synth bus reaches the return bus.
    pub synth_send: Single,
    pub comp_synth: CompressorParams,
    pub comp_master: CompressorParams,
    /// Level of the drum bus alone.
    pub drum_gain: Single,
    /// Pre-limiter drive.
    pub drive: Single,
    // --- Delay ---
    /// Dry/wet blend for the delay. Zero bypasses it entirely.
    pub delay_mix: Single,
    /// When true, the division sets the time and `delay_time` is ignored.
    pub delay_sync: bool,
    /// Free-running delay time in seconds.
    pub delay_time: Single,
    pub delay_division: NoteDivision,
    /// How much of each repeat feeds the next. Below 1.0 always.
    pub delay_feedback: Single,
    /// High-frequency loss per repeat.
    pub delay_damping: Single,
    /// Cross the two lines so repeats alternate between the speakers.
    pub delay_ping_pong: bool,
    // --- Reverb ---
    /// Dry/wet blend for the reverb. Zero bypasses it entirely.
    pub reverb_mix: Single,
    /// Tail length.
    pub reverb_size: Single,
    pub reverb_damping: Single,
    /// Gap before the tail starts, in seconds.
    pub reverb_predelay: Single,
    /// 0.0 collapses the tail to mono.
    pub reverb_width: Single,
    // --- Sequencer ---
    pub seq_playing: bool,
    pub clock_source: ClockSource,
    pub tempo: Single,
    /// Sequencer steps per quarter note. 4 = sixteenth notes.
    pub steps_per_beat: Single,
    /// Pattern length in steps.
    pub seq_length: usize,
    /// Note length as a fraction of one step.
    pub seq_gate: Single,
    /// Delays every other step, as a fraction of a step.
    pub seq_swing: Single,
    // --- Drums ---
    pub drum_enabled: bool,
    /// Gates the melodic track. Separate from `seq_playing`, which stops the clock.
    pub melody_enabled: bool,
    /// Grid length in steps, independent of `seq_length`.
    pub drum_length: usize,
    pub drum_level: Single,
    /// Sends the drum bus through delay and reverb.
    pub drum_to_fx: bool,
    /// How much of the drum send pair reaches the return bus.
    pub drum_send: Single,
    /// Per-pad position, -1.0 hard left to 1.0 hard right.
    pub pad_pan: [Single; PAD_COUNT],
    /// Per-pad contribution to the drum send pair.
    pub pad_send: [Single; PAD_COUNT],
    /// Per-pad mix level.
    pub pad_level: [Single; PAD_COUNT],
    /// Per-pad tuning in semitones.
    pub pad_tune: [Single; PAD_COUNT],
    /// Per-pad multiplier on the pad's natural decay.
    pub pad_decay: [Single; PAD_COUNT],
    /// Silences a pad without disturbing its level.
    pub pad_mute: [bool; PAD_COUNT],
    // --- Generative ---
    pub gen_enabled: bool,
    /// Root note as a pitch class, 0 = C.
    pub gen_root: u8,
    pub gen_scale: Scale,
    /// Lowest octave the generator will write in.
    pub gen_octave: i32,
    /// How many octaves above that it may reach.
    pub gen_range: u32,
    /// Probability that a step has a note rather than a rest.
    pub gen_density: Single,
    /// How far the melody may leap, in scale degrees.
    pub gen_max_jump: Single,
    /// How strongly downbeats are pulled toward chord tones.
    pub gen_chord_bias: Single,
    // --- Bass ---
    /// The bass is off until asked for, so adding it never changes a patch.
    pub bass_enabled: bool,
    /// The bass voice.
    pub bass: BassParams,
    pub comp_bass: CompressorParams,
    /// Level of the bass bus alone.
    pub bass_gain: Single,
    /// How much of the compressed bass bus reaches the return bus.
    pub bass_send: Single,
    /// Length of the bass line in steps.
    pub bass_seq_length: usize,
    /// Lowest octave of the bass line.
    pub bass_gen_octave: i32,
    /// How many octaves above that it may reach.
    pub bass_gen_range: u32,
    pub bass_gen_density: Single,
    pub bass_gen_max_jump: Single,
    pub bass_gen_chord_bias: Single,
    /// How often a step is tied to the one before it.
    pub bass_slide_chance: Single,
    /// How often a step off the downbeat is accented.
    pub bass_accent_chance: Single,
}

impl Params {
    /// Whether this is an untouched patch.
    pub open spec fn is_default(self) -> bool {
        &&& self.osc1_wave == Waveform::Saw
        &&& self.osc1_level == of(0x3F4C_CCCD)  // 0.8
        &&& self.osc1_semitones == of(0x0000_0000)  // 0
        &&& self.osc1_detune == of(0x0000_0000)  // 0
        &&& self.osc2_wave == Waveform::Saw
        &&& self.osc2_level == of(0x3F00_0000)  // 0.5
        &&& self.osc2_semitones == of(0x0000_0000)  // 0
        &&& self.osc2_detune == of(0x40E0_0000)  // 7
        &&& self.pulse_width == of(0x3F00_0000)  // 0.5
        &&& self.sub_level == of(0x0000_0000)  // 0
        &&& self.noise_level == of(0x0000_0000)  // 0
        &&& self.filter_mode == SvfMode::Lowpass
        &&& self.filter_slope == Slope::Db24
        &&& self.cutoff == of(0x44FA_0000)  // 2000
        &&& self.resonance == of(0x3E80_0000)  // 0.25
        &&& self.filter_env_amount == of(0x4000_0000)  // 2
        &&& self.filter_key_track == of(0x3EB3_3333)  // 0.35
        &&& self.filter_velocity == of(0x3ECC_CCCD)  // 0.4
        &&& self.amp_env.attack == of(0x3BA3_D70A)  // 0.005
        &&& self.amp_env.decay == of(0x3E80_0000)  // 0.25
        &&& self.amp_env.sustain == of(0x3F33_3333)  // 0.7
        &&& self.amp_env.release == of(0x3E80_0000)  // 0.25
        &&& self.filter_env.attack == of(0x3B03_126F)  // 0.002
        &&& self.filter_env.decay == of(0x3EB3_3333)  // 0.35
        &&& self.filter_env.sustain == of(0x3E80_0000)  // 0.25
        &&& self.filter_env.release == of(0x3E99_999A)  // 0.3
        &&& self.lfo_wave == LfoWave::Sine
        &&& self.lfo_rate == of(0x40A0_0000)  // 5
        &&& self.lfo_depth == of(0x0000_0000)  // 0
        &&& self.lfo_target == LfoTarget::Cutoff
        &&& !self.lfo_retrigger
        &&& self.voice_mode == VoiceMode::Poly
        &&& self.max_voices == 16
        &&& self.glide == of(0x0000_0000)  // 0
        &&& self.legato
        &&& self.pitch_bend == of(0x0000_0000)  // 0
        &&& self.mod_wheel == of(0x0000_0000)  // 0
        &&& self.master_gain == of(0x3F00_0000)  // 0.5
        &&& self.synth_gain == of(0x3F80_0000)  // 1
        &&& self.synth_send == of(0x3F80_0000)  // 1
        &&& self.comp_synth == CompressorParams::standard()
        &&& self.comp_master == CompressorParams::standard()
        &&& self.drum_gain == of(0x3F80_0000)  // 1
        &&& self.drive == of(0x3F80_0000)  // 1
        &&& self.delay_mix == of(0x0000_0000)  // 0
        &&& !self.delay_sync
        &&& self.delay_time == of(0x3EC0_0000)  // 0.375
        &&& self.delay_division == NoteDivision::Eighth
        &&& self.delay_feedback == of(0x3EB3_3333)  // 0.35
        &&& self.delay_damping == of(0x3E99_999A)  // 0.3
        &&& !self.delay_ping_pong
        &&& self.reverb_mix == of(0x0000_0000)  // 0
        &&& self.reverb_size == of(0x3F00_0000)  // 0.5
        &&& self.reverb_damping == of(0x3F00_0000)  // 0.5
        &&& self.reverb_predelay == of(0x3CA3_D70A)  // 0.02
        &&& self.reverb_width == of(0x3F80_0000)  // 1
        &&& !self.seq_playing
        &&& self.clock_source == ClockSource::Internal
        &&& self.tempo == of(0x42F0_0000)  // 120
        &&& self.steps_per_beat == of(0x4080_0000)  // 4
        &&& self.seq_length == 16
        &&& self.seq_gate == of(0x3F19_999A)  // 0.6
        &&& self.seq_swing == of(0x0000_0000)  // 0
        &&& !self.drum_enabled
        &&& self.melody_enabled
        &&& self.drum_length == 16
        &&& self.drum_level == of(0x3F4C_CCCD)  // 0.8
        &&& !self.drum_to_fx
        &&& self.drum_send == of(0x0000_0000)  // 0
        &&& forall|i: int| 0 <= i < PAD_COUNT ==> #[trigger] self.pad_pan[i] == of(0x0000_0000)
        &&& forall|i: int| 0 <= i < PAD_COUNT ==> #[trigger] self.pad_send[i] == of(0x3F80_0000)
        &&& forall|i: int| 0 <= i < PAD_COUNT ==> #[trigger] self.pad_level[i] == of(0x3F4C_CCCD)
        &&& forall|i: int| 0 <= i < PAD_COUNT ==> #[trigger] self.pad_tune[i] == of(0x0000_0000)
        &&& forall|i: int| 0 <= i < PAD_COUNT ==> #[trigger] self.pad_decay[i] == of(0x3F80_0000)
        &&& forall|i: int| 0 <= i < PAD_COUNT ==> #[trigger] self.pad_mute[i] == false
        &&& self.gen_enabled
        &&& self.gen_root == 0
        &&& self.gen_scale == Scale::MinorPentatonic
        &&& self.gen_octave == 3
        &&& self.gen_range == 2
        &&& self.gen_density == of(0x3F40_0000)  // 0.75
        &&& self.gen_max_jump == of(0x4040_0000)  // 3
        &&& self.gen_chord_bias == of(0x3F19_999A)  // 0.6
        &&& !self.bass_enabled
        &&& self.bass == BassParams::standard()
        &&& self.comp_bass == CompressorParams::standard()
        &&& self.bass_gain == of(0x3F80_0000)  // 1
        &&& self.bass_send == of(0x0000_0000)  // 0
        &&& self.bass_seq_length == 16
        &&& self.bass_gen_octave == 2
        &&& self.bass_gen_range == 1
        &&& self.bass_gen_density == of(0x3F59_999A)  // 0.85
        &&& self.bass_gen_max_jump == of(0x40A0_0000)  // 5
        &&& self.bass_gen_chord_bias == of(0x3F4C_CCCD)  // 0.8
        &&& self.bass_slide_chance == of(0x3E80_0000)  // 0.25
        &&& self.bass_accent_chance == of(0x3E99_999A)  // 0.3
    }

    /// Whether every value is a number in its range: what the sound generator
    /// may rely on.
    pub open spec fn in_range(self) -> bool {
        &&& within(self.osc1_level, of(0x0000_0000), of(0x3F80_0000))  // 0 to 1
        &&& within(self.osc1_semitones, of(0xC210_0000), of(0x4210_0000))  // -36 to 36
        &&& within(self.osc1_detune, of(0xC2C8_0000), of(0x42C8_0000))  // -100 to 100
        &&& within(self.osc2_level, of(0x0000_0000), of(0x3F80_0000))  // 0 to 1
        &&& within(self.osc2_semitones, of(0xC210_0000), of(0x4210_0000))  // -36 to 36
        &&& within(self.osc2_detune, of(0xC2C8_0000), of(0x42C8_0000))  // -100 to 100
        &&& within(self.pulse_width, of(0x3D4C_CCCD), of(0x3F73_3333))  // 0.05 to 0.95
        &&& within(self.sub_level, of(0x0000_0000), of(0x3F80_0000))  // 0 to 1
        &&& within(self.noise_level, of(0x0000_0000), of(0x3F80_0000))  // 0 to 1
        &&& within(self.cutoff, of(0x41A0_0000), of(0x469C_4000))  // 20 to 20000
        &&& within(self.resonance, of(0x0000_0000), of(0x3F80_0000))  // 0 to 1
        &&& within(self.filter_env_amount, of(0xC100_0000), of(0x4100_0000))  // -8 to 8
        &&& within(self.filter_key_track, of(0x0000_0000), of(0x3F80_0000))  // 0 to 1
        &&& within(self.filter_velocity, of(0x0000_0000), of(0x3F80_0000))  // 0 to 1
        &&& within(self.amp_env.attack, of(0x0000_0000), of(0x41A0_0000))  // 0 to 20
        &&& within(self.amp_env.decay, of(0x0000_0000), of(0x41A0_0000))  // 0 to 20
        &&& within(self.amp_env.sustain, of(0x0000_0000), of(0x3F80_0000))  // 0 to 1
        &&& within(self.amp_env.release, of(0x3A83_126F), of(0x41A0_0000))  // 0.001 to 20
        &&& within(self.filter_env.attack, of(0x0000_0000), of(0x41A0_0000))  // 0 to 20
        &&& within(self.filter_env.decay, of(0x0000_0000), of(0x41A0_0000))  // 0 to 20
        &&& within(self.filter_env.sustain, of(0x0000_0000), of(0x3F80_0000))  // 0 to 1
        &&& within(self.filter_env.release, of(0x3A83_126F), of(0x41A0_0000))  // 0.001 to 20
        &&& within(self.lfo_rate, of(0x3C23_D70A), of(0x4220_0000))  // 0.01 to 40
        &&& within(self.lfo_depth, of(0x0000_0000), of(0x3F80_0000))  // 0 to 1
        &&& 1 <= self.max_voices <= MAX_VOICES
        &&& within(self.glide, of(0x0000_0000), of(0x40A0_0000))  // 0 to 5
        &&& within(self.pitch_bend, of(0xC1C0_0000), of(0x41C0_0000))  // -24 to 24
        &&& within(self.mod_wheel, of(0x0000_0000), of(0x3F80_0000))  // 0 to 1
        &&& within(self.master_gain, of(0x0000_0000), of(0x4000_0000))  // 0 to 2
        &&& within(self.synth_gain, of(0x0000_0000), of(0x4000_0000))  // 0 to 2
        &&& within(self.synth_send, of(0x0000_0000), of(0x3F80_0000))  // 0 to 1
        &&& self.comp_synth.in_range()
        &&& self.comp_master.in_range()
        &&& within(self.drum_gain, of(0x0000_0000), of(0x4000_0000))  // 0 to 2
        &&& within(self.drive, of(0x3DCC_CCCD), of(0x41A0_0000))  // 0.1 to 20
        &&& within(self.delay_mix, of(0x0000_0000), of(0x3F80_0000))  // 0 to 1
        &&& within(self.delay_time, of(0x3A83_126F), of(0x4000_0000))  // 0.001 to 2
        &&& within(self.delay_feedback, of(0x0000_0000), of(0x3F73_3333))  // 0 to 0.95
        &&& within(self.delay_damping, of(0x0000_0000), of(0x3F80_0000))  // 0 to 1
        &&& within(self.reverb_mix, of(0x0000_0000), of(0x3F80_0000))  // 0 to 1
        &&& within(self.reverb_size, of(0x0000_0000), of(0x3F80_0000))  // 0 to 1
        &&& within(self.reverb_damping, of(0x0000_0000), of(0x3F80_0000))  // 0 to 1
        &&& within(self.reverb_predelay, of(0x0000_0000), of(0x3E80_0000))  // 0 to 0.25
        &&& within(self.reverb_width, of(0x0000_0000), of(0x3F80_0000))  // 0 to 1
        &&& within(self.tempo, of(0x41A0_0000), of(0x4396_0000))  // 20 to 300
        &&& within(self.steps_per_beat, of(0x3E80_0000), of(0x4180_0000))  // 0.25 to 16
        &&& 1 <= self.seq_length <= MAX_STEPS
        &&& within(self.seq_gate, of(0x3D4C_CCCD), of(0x4000_0000))  // 0.05 to 2
        &&& within(self.seq_swing, of(0x0000_0000), of(0x3F40_0000))  // 0 to 0.75
        &&& 1 <= self.drum_length <= MAX_STEPS
        &&& within(self.drum_level, of(0x0000_0000), of(0x3F80_0000))  // 0 to 1
        &&& within(self.drum_send, of(0x0000_0000), of(0x3F80_0000))  // 0 to 1
        &&& forall|i: int|
            0 <= i < PAD_COUNT ==> within(#[trigger] self.pad_pan[i], of(0xBF80_0000), of(0x3F80_0000))  // -1 to 1
        &&& forall|i: int| 0 <= i < PAD_COUNT ==> within(#[trigger] self.pad_send[i], of(0x0000_0000), of(0x3F80_0000))
        &&& forall|i: int| 0 <= i < PAD_COUNT ==> within(#[trigger] self.pad_level[i], of(0x0000_0000), of(0x3F80_0000))
        &&& forall|i: int|
            0 <= i < PAD_COUNT ==> within(#[trigger] self.pad_tune[i], of(0xC140_0000), of(0x4140_0000))  // -12 to 12
        &&& forall|i: int|
            0 <= i < PAD_COUNT ==> within(#[trigger] self.pad_decay[i], of(0x3E80_0000), of(0x4080_0000))  // 0.25 to 4
        &&& self.gen_root < 12
        &&& 0 <= self.gen_octave <= 8
        &&& 1 <= self.gen_range <= 5
        &&& within(self.gen_density, of(0x0000_0000), of(0x3F80_0000))  // 0 to 1
        &&& within(self.gen_max_jump, of(0x3F80_0000), of(0x4140_0000))  // 1 to 12
        &&& within(self.gen_chord_bias, of(0x0000_0000), of(0x3F80_0000))  // 0 to 1
        &&& self.bass.in_range()
        &&& self.comp_bass.in_range()
        &&& within(self.bass_gain, of(0x0000_0000), of(0x4000_0000))  // 0 to 2
        &&& within(self.bass_send, of(0x0000_0000), of(0x3F80_0000))  // 0 to 1
        &&& 1 <= self.bass_seq_length <= MAX_STEPS
        &&& 0 <= self.bass_gen_octave <= 7
        &&& 1 <= self.bass_gen_range <= 4
        &&& within(self.bass_gen_density, of(0x0000_0000), of(0x3F80_0000))  // 0 to 1
        &&& within(self.bass_gen_max_jump, of(0x3F80_0000), of(0x4140_0000))  // 1 to 12
        &&& within(self.bass_gen_chord_bias, of(0x0000_0000), of(0x3F80_0000))  // 0 to 1
        &&& within(self.bass_slide_chance, of(0x0000_0000), of(0x3F80_0000))  // 0 to 1
        &&& within(self.bass_accent_chance, of(0x0000_0000), of(0x3F80_0000))  // 0 to 1
    }

    /// Whether two patches agree on everything.
    pub open spec fn same(self, other: Params) -> bool {
        &&& self.osc1_wave == other.osc1_wave
        &&& self.osc1_level == other.osc1_level
        &&& self.osc1_semitones == other.osc1_semitones
        &&& self.osc1_detune == other.osc1_detune
        &&& self.osc2_wave == other.osc2_wave
        &&& self.osc2_level == other.osc2_level
        &&& self.osc2_semitones == other.osc2_semitones
        &&& self.osc2_detune == other.osc2_detune
        &&& self.pulse_width == other.pulse_width
        &&& self.sub_level == other.sub_level
        &&& self.noise_level == other.noise_level
        &&& self.filter_mode == other.filter_mode
        &&& self.filter_slope == other.filter_slope
        &&& self.cutoff == other.cutoff
        &&& self.resonance == other.resonance
        &&& self.filter_env_amount == other.filter_env_amount
        &&& self.filter_key_track == other.filter_key_track
        &&& self.filter_velocity == other.filter_velocity
        &&& self.amp_env == other.amp_env
        &&& self.filter_env == other.filter_env
        &&& self.lfo_wave == other.lfo_wave
        &&& self.lfo_rate == other.lfo_rate
        &&& self.lfo_depth == other.lfo_depth
        &&& self.lfo_target == other.lfo_target
        &&& self.lfo_retrigger == other.lfo_retrigger
        &&& self.voice_mode == other.voice_mode
        &&& self.max_voices == other.max_voices
        &&& self.glide == other.glide
        &&& self.legato == other.legato
        &&& self.pitch_bend == other.pitch_bend
        &&& self.mod_wheel == other.mod_wheel
        &&& self.master_gain == other.master_gain
        &&& self.synth_gain == other.synth_gain
        &&& self.synth_send == other.synth_send
        &&& self.comp_synth == other.comp_synth
        &&& self.comp_master == other.comp_master
        &&& self.drum_gain == other.drum_gain
        &&& self.drive == other.drive
        &&& self.delay_mix == other.delay_mix
        &&& self.delay_sync == other.delay_sync
        &&& self.delay_time == other.delay_time
        &&& self.delay_division == other.delay_division
        &&& self.delay_feedback == other.delay_feedback
        &&& self.delay_damping == other.delay_damping
        &&& self.delay_ping_pong == other.delay_ping_pong
        &&& self.reverb_mix == other.reverb_mix
        &&& self.reverb_size == other.reverb_size
        &&& self.reverb_damping == other.reverb_damping
        &&& self.reverb_predelay == other.reverb_predelay
        &&& self.reverb_width == other.reverb_width
        &&& self.seq_playing == other.seq_playing
        &&& self.clock_source == other.clock_source
        &&& self.tempo == other.tempo
        &&& self.steps_per_beat == other.steps_per_beat
        &&& self.seq_length == other.seq_length
        &&& self.seq_gate == other.seq_gate
        &&& self.seq_swing == other.seq_swing
        &&& self.drum_enabled == other.drum_enabled
        &&& self.melody_enabled == other.melody_enabled
        &&& self.drum_length == other.drum_length
        &&& self.drum_level == other.drum_level
        &&& self.drum_to_fx == other.drum_to_fx
        &&& self.drum_send == other.drum_send
        &&& self.pad_pan@ == other.pad_pan@
        &&& self.pad_send@ == other.pad_send@
        &&& self.pad_level@ == other.pad_level@
        &&& self.pad_tune@ == other.pad_tune@
        &&& self.pad_decay@ == other.pad_decay@
        &&& self.pad_mute@ == other.pad_mute@
        &&& self.gen_enabled == other.gen_enabled
        &&& self.gen_root == other.gen_root
        &&& self.gen_scale == other.gen_scale
        &&& self.gen_octave == other.gen_octave
        &&& self.gen_range == other.gen_range
        &&& self.gen_density == other.gen_density
        &&& self.gen_max_jump == other.gen_max_jump
        &&& self.gen_chord_bias == other.gen_chord_bias
        &&& self.bass_enabled == other.bass_enabled
        &&& self.bass == other.bass
        &&& self.comp_bass == other.comp_bass
        &&& self.bass_gain == other.bass_gain
        &&& self.bass_send == other.bass_send
        &&& self.bass_seq_length == other.bass_seq_length
        &&& self.bass_gen_octave == other.bass_gen_octave
        &&& self.bass_gen_range == other.bass_gen_range
        &&& self.bass_gen_density == other.bass_gen_density
        &&& self.bass_gen_max_jump == other.bass_gen_max_jump
        &&& self.bass_gen_chord_bias == other.bass_gen_chord_bias
        &&& self.bass_slide_chance == other.bass_slide_chance
        &&& self.bass_accent_chance == other.bass_accent_chance
    }
}

impl Default for Params {
    fn default() -> (p: Params)
        ensures
            p.is_default(),
    {
        let pad_pan: [Single; PAD_COUNT] = every_pad(of(0x0000_0000));  // 0
        let pad_send: [Single; PAD_COUNT] = every_pad(of(0x3F80_0000));  // 1
        let pad_level: [Single; PAD_COUNT] = every_pad(of(0x3F4C_CCCD));  // 0.8
        let pad_tune: [Single; PAD_COUNT] = every_pad(of(0x0000_0000));  // 0
        let pad_decay: [Single; PAD_COUNT] = every_pad(of(0x3F80_0000));  // 1
        let pad_mute: [bool; PAD_COUNT] = [false; PAD_COUNT];
        Params {
            osc1_wave: Waveform::Saw,
            osc1_level: of(0x3F4C_CCCD),  // 0.8
            osc1_semitones: of(0x0000_0000),  // 0
            osc1_detune: of(0x0000_0000),  // 0
            osc2_wave: Waveform::Saw,
            osc2_level: of(0x3F00_0000),  // 0.5
            osc2_semitones: of(0x0000_0000),  // 0
            osc2_detune: of(0x40E0_0000),  // 7
            pulse_width: of(0x3F00_0000),  // 0.5
            sub_level: of(0x0000_0000),  // 0
            noise_level: of(0x0000_0000),  // 0
            filter_mode: SvfMode::Lowpass,
            filter_slope: Slope::Db24,
            cutoff: of(0x44FA_0000),  // 2000
            resonance: of(0x3E80_0000),  // 0.25
            filter_env_amount: of(0x4000_0000),  // 2
            filter_key_track: of(0x3EB3_3333),  // 0.35
            filter_velocity: of(0x3ECC_CCCD),  // 0.4
            amp_env: AdsrSettings {
                attack: of(0x3BA3_D70A),
                decay: of(0x3E80_0000),
                sustain: of(0x3F33_3333),
                release: of(0x3E80_0000),
            },
            filter_env: AdsrSettings {
                attack: of(0x3B03_126F),
                decay: of(0x3EB3_3333),
                sustain: of(0x3E80_0000),
                release: of(0x3E99_999A),
            },
            lfo_wave: LfoWave::Sine,
            lfo_rate: of(0x40A0_0000),  // 5
            lfo_depth: of(0x0000_0000),  // 0
            lfo_target: LfoTarget::Cutoff,
            lfo_retrigger: false,
            voice_mode: VoiceMode::Poly,
            max_voices: 16,
            glide: of(0x0000_0000),  // 0
            legato: true,
            pitch_bend: of(0x0000_0000),  // 0
            mod_wheel: of(0x0000_0000),  // 0
            master_gain: of(0x3F00_0000),  // 0.5
            synth_gain: of(0x3F80_0000),  // 1
            synth_send: of(0x3F80_0000),  // 1
            comp_synth: CompressorParams::default(),
            comp_master: CompressorParams::default(),
            drum_gain: of(0x3F80_0000),  // 1
            drive: of(0x3F80_0000),  // 1
            delay_mix: of(0x0000_0000),  // 0
            delay_sync: false,
            delay_time: of(0x3EC0_0000),  // 0.375
            delay_division: NoteDivision::Eighth,
            delay_feedback: of(0x3EB3_3333),  // 0.35
            delay_damping: of(0x3E99_999A),  // 0.3
            delay_ping_pong: false,
            reverb_mix: of(0x0000_0000),  // 0
            reverb_size: of(0x3F00_0000),  // 0.5
            reverb_damping: of(0x3F00_0000),  // 0.5
            reverb_predelay: of(0x3CA3_D70A),  // 0.02
            reverb_width: of(0x3F80_0000),  // 1
            seq_playing: false,
            clock_source: ClockSource::Internal,
            tempo: of(0x42F0_0000),  // 120
            steps_per_beat: of(0x4080_0000),  // 4
            seq_length: 16,
            seq_gate: of(0x3F19_999A),  // 0.6
            seq_swing: of(0x0000_0000),  // 0
            drum_enabled: false,
            melody_enabled: true,
            drum_length: 16,
            drum_level: of(0x3F4C_CCCD),  // 0.8
            drum_to_fx: false,
            drum_send: of(0x0000_0000),  // 0
            pad_pan,
            pad_send,
            pad_level,
            pad_tune,
            pad_decay,
            pad_mute,
            gen_enabled: true,
            gen_root: 0,
            gen_scale: Scale::MinorPentatonic,
            gen_octave: 3,
            gen_range: 2,
            gen_density: of(0x3F40_0000),  // 0.75
            gen_max_jump: of(0x4040_0000),  // 3
            gen_chord_bias: of(0x3F19_999A),  // 0.6
            bass_enabled: false,
            bass: BassParams::default(),
            comp_bass: CompressorParams::default(),
            bass_gain: of(0x3F80_0000),  // 1
            bass_send: of(0x0000_0000),  // 0
            bass_seq_length: 16,
            bass_gen_octave: 2,
            bass_gen_range: 1,
            bass_gen_density: of(0x3F59_999A),  // 0.85
            bass_gen_max_jump: of(0x40A0_0000),  // 5
            bass_gen_chord_bias: of(0x3F4C_CCCD),  // 0.8
            bass_slide_chance: of(0x3E80_0000),  // 0.25
            bass_accent_chance: of(0x3E99_999A),  // 0.3
        }
    }
}

/// The same setting for every pad.
fn every_pad(v: Single) -> (a: [Single; PAD_COUNT])
    ensures
        forall|i: int| 0 <= i < PAD_COUNT ==> #[trigger] a[i] == v,
{
    [v, v, v, v, v, v, v, v]
}

/// An untouched patch is in range.
pub proof fn law_default_in_range(p: Params)
    requires
        p.is_default(),
    ensures
        p.in_range(),
{
    reveal(within);
}

/// A step as one word: bit 31 active, bit 30 accent, bit 29 slide, bits 8 to
/// 15 the note, and the velocity, in 255ths, in the low byte.
pub open spec fn packed_step(step: Step) -> int {
    (if step.active {
        0x8000_0000int
    } else {
        0
    }) + (if step.accent {
        0x4000_0000int
    } else {
        0
    }) + (if step.slide {
        0x2000_0000int
    } else {
        0
    }) + step.note * 256 + velocity_byte(step.velocity)
}

/// A velocity in whole 255ths, held to the unit interval. A NaN counts as none.
pub open spec fn velocity_byte(v: Single) -> int {
    unit(v).scaled(255)
}

/// The step that a word stands for.
pub open spec fn unpacked_step(word: u32) -> Step {
    Step {
        active: word >= 0x8000_0000,
        accent: word % 0x8000_0000 >= 0x4000_0000,
        slide: word % 0x4000_0000 >= 0x2000_0000,
        note: ((word / 256) % 256) as u8,
        velocity: Single { bits: single::ratio_bits((word % 256) as nat, 255) as u32 },
    }
}

/// Packs a step into one word.
///
/// Velocity to 1/255 is finer than any display or ear needs, and fitting a
/// whole step into a single word is what makes it tear-free: the reader either
/// sees the old step or the new one, never half of each.
pub fn pack_step(step: &Step) -> (word: u32)
    ensures
        word == packed_step(*step),
{
    let v: Single = clamp01(step.velocity);
    assert(v.magnitude() <= single::ONE_BITS) by {
        reveal(within);
    }
    let level: u32 = v.scale(255);
    let active: u32 = if step.active {
        0x8000_0000
    } else {
        0
    };
    let accent: u32 = if step.accent {
        0x4000_0000
    } else {
        0
    };
    let slide: u32 = if step.slide {
        0x2000_0000
    } else {
        0
    };
    active + accent + slide + step.note as u32 * 256 + level
}

/// Unpacks a step written by `pack_step`.
pub fn unpack_step(word: u32) -> (step: Step)
    ensures
        step == unpacked_step(word),
{
    Step {
        active: word >= 0x8000_0000,
        accent: word % 0x8000_0000 >= 0x4000_0000,
        slide: word % 0x4000_0000 >= 0x2000_0000,
        note: ((word / 256) % 256) as u8,
        velocity: Single::ratio(word % 256, 255),
    }
}

/// The trip through a word keeps a step's flags and note, and keeps its
/// velocity to the 255th below it: what comes back lies within a 255th of what
/// was written.
pub proof fn law_step_round_trip(step: Step)
    ensures
        ({
            let back = unpacked_step(packed_step(step) as u32);
            &&& back.active == step.active
            &&& back.accent == step.accent
            &&& back.slide == step.slide
            &&& back.note == step.note
            &&& back.velocity.bits == single::ratio_bits(
                velocity_byte(step.velocity) as nat,
                255,
            )
            &&& 0 <= velocity_byte(step.velocity) <= 255
            &&& bounds::in_unit(step.velocity) ==> bounds::within_a_255th(
                back.velocity,
                step.velocity,
            )
        }),
{
    reveal(held);
    if bounds::in_unit(step.velocity) {
        bounds::lemma_byte_round_trip(step.velocity);
        assert(unit(step.velocity) == step.velocity);
    }
    single::lemma_scaled_at_most(unit(step.velocity), 255);
    single::lemma_ratio_at_most_one(velocity_byte(step.velocity) as nat, 255);
    lemma_word_fields(step.active, step.accent, step.slide, step.note, velocity_byte(step.velocity));
}

/// The fields of a packed word are where they were put.
proof fn lemma_word_fields(active: bool, accent: bool, slide: bool, note: u8, level: int)
    requires
        0 <= level <= 255,
    ensures
        ({
            let word = (if active {
                0x8000_0000int
            } else {
                0
            }) + (if accent {
                0x4000_0000int
            } else {
                0
            }) + (if slide {
                0x2000_0000int
            } else {
                0
            }) + note * 256 + level;
            &&& 0 <= word <= u32::MAX
            &&& (word >= 0x8000_0000) == active
            &&& (word % 0x8000_0000 >= 0x4000_0000) == accent
            &&& (word % 0x4000_0000 >= 0x2000_0000) == slide
            &&& (word / 256) % 256 == note
            &&& word % 256 == level
        }),
{
    let (n, l) = (note as u32, level as u32);
    let word: u32 = ((if active {
        0x8000_0000u32
    } else {
        0u32
    }) + (if accent {
        0x4000_0000u32
    } else {
        0u32
    }) + (if slide {
        0x2000_0000u32
    } else {
        0u32
    }) + n * 256 + l) as u32;
    assert((word >= 0x8000_0000) == active && (word % 0x8000_0000 >= 0x4000_0000) == accent && (word
        % 0x4000_0000 >= 0x2000_0000) == slide && (word / 256) % 256 == n && word % 256 == l)
        by (bit_vector)
        requires
            n <= 255,
            l <= 255,
            word == (if active {
                0x8000_0000u32
            } else {
                0u32
            }) + (if accent {
                0x4000_0000u32
            } else {
                0u32
            }) + (if slide {
                0x2000_0000u32
            } else {
                0u32
            }) + n * 256 + l,
    ;
}

/// A step that has been through a word once comes back unchanged ever after.
pub proof fn law_packing_settles(step: Step)
    ensures
        ({
            let once = unpacked_step(packed_step(step) as u32);
            unpacked_step(packed_step(once) as u32) == once
        }),
{
    let once = unpacked_step(packed_step(step) as u32);
    law_step_round_trip(step);
    law_step_round_trip(once);
    let n = velocity_byte(step.velocity) as u8;
    single::lemma_ratio_at_most_one(n as nat, 255);
    single::law_byte_survives_unit_scaling(n);
    reveal(held);
    assert(unit(once.velocity) == once.velocity);
}

/// The shared parameter block: one word per knob, the mirrors of what is
/// playing, and the telemetry.
#[derive(Debug, Clone, Copy)]
pub struct SharedParams {
    // --- Oscillator 1 ---
    pub osc1_wave: AtomicEnum,
    pub osc1_level: AtomicF32,
    pub osc1_semitones: AtomicF32,
    pub osc1_detune: AtomicF32,
    // --- Oscillator 2 ---
    pub osc2_wave: AtomicEnum,
    pub osc2_level: AtomicF32,
    pub osc2_semitones: AtomicF32,
    pub osc2_detune: AtomicF32,
    pub pulse_width: AtomicF32,
    pub sub_level: AtomicF32,
    pub noise_level: AtomicF32,
    // --- Filter ---
    pub filter_mode: AtomicEnum,
    pub filter_slope: AtomicEnum,
    pub cutoff: AtomicF32,
    pub resonance: AtomicF32,
    pub filter_env_amount: AtomicF32,
    pub filter_key_track: AtomicF32,
    pub filter_velocity: AtomicF32,
    // --- Envelopes ---
    pub amp_attack: AtomicF32,
    pub amp_decay: AtomicF32,
    pub amp_sustain: AtomicF32,
    pub amp_release: AtomicF32,
    pub filter_attack: AtomicF32,
    pub filter_decay: AtomicF32,
    pub filter_sustain: AtomicF32,
    pub filter_release: AtomicF32,
    // --- LFO ---
    pub lfo_wave: AtomicEnum,
    pub lfo_rate: AtomicF32,
    pub lfo_depth: AtomicF32,
    pub lfo_target: AtomicEnum,
    pub lfo_retrigger: AtomicBool32,
    // --- Voices ---
    pub voice_mode: AtomicEnum,
    pub max_voices: AtomicEnum,
    pub glide: AtomicF32,
    pub legato: AtomicBool32,
    pub pitch_bend: AtomicF32,
    pub mod_wheel: AtomicF32,
    // --- Output ---
    pub master_gain: AtomicF32,
    pub synth_gain: AtomicF32,
    pub synth_send: AtomicF32,
    pub comp_synth: SharedCompressor,
    pub comp_master: SharedCompressor,
    pub drum_gain: AtomicF32,
    pub drive: AtomicF32,
    // --- Delay ---
    pub delay_mix: AtomicF32,
    pub delay_sync: AtomicBool32,
    pub delay_time: AtomicF32,
    pub delay_division: AtomicEnum,
    pub delay_feedback: AtomicF32,
    pub delay_damping: AtomicF32,
    pub delay_ping_pong: AtomicBool32,
    // --- Reverb ---
    pub reverb_mix: AtomicF32,
    pub reverb_size: AtomicF32,
    pub reverb_damping: AtomicF32,
    pub reverb_predelay: AtomicF32,
    pub reverb_width: AtomicF32,
    // --- Sequencer ---
    pub seq_playing: AtomicBool32,
    pub clock_source: AtomicEnum,
    pub tempo: AtomicF32,
    pub steps_per_beat: AtomicF32,
    pub seq_length: AtomicEnum,
    pub seq_gate: AtomicF32,
    pub seq_swing: AtomicF32,
    // --- Drums ---
    pub drum_enabled: AtomicBool32,
    pub melody_enabled: AtomicBool32,
    pub drum_length: AtomicEnum,
    pub drum_level: AtomicF32,
    pub drum_to_fx: AtomicBool32,
    pub drum_send: AtomicF32,
    pub pad_pan: [AtomicF32; PAD_COUNT],
    pub pad_send: [AtomicF32; PAD_COUNT],
    pub pad_level: [AtomicF32; PAD_COUNT],
    pub pad_tune: [AtomicF32; PAD_COUNT],
    pub pad_decay: [AtomicF32; PAD_COUNT],
    pub pad_mute: [AtomicBool32; PAD_COUNT],
    // --- Generative ---
    pub gen_enabled: AtomicBool32,
    pub gen_root: AtomicEnum,
    pub gen_scale: AtomicEnum,
    pub gen_octave: AtomicEnum,
    pub gen_range: AtomicEnum,
    pub gen_density: AtomicF32,
    pub gen_max_jump: AtomicF32,
    pub gen_chord_bias: AtomicF32,
    // --- Bass ---
    pub bass_enabled: AtomicBool32,
    pub bass: SharedBass,
    pub comp_bass: SharedCompressor,
    pub bass_gain: AtomicF32,
    pub bass_send: AtomicF32,
    pub bass_seq_length: AtomicEnum,
    pub bass_gen_octave: AtomicEnum,
    pub bass_gen_range: AtomicEnum,
    pub bass_gen_density: AtomicF32,
    pub bass_gen_max_jump: AtomicF32,
    pub bass_gen_chord_bias: AtomicF32,
    pub bass_slide_chance: AtomicF32,
    pub bass_accent_chance: AtomicF32,
    // --- Mirrors, staging and telemetry ---
    /// The grid that is actually playing, mirrored for display: one word holds a
    /// whole column.
    pub drum_grid: [u32; MAX_STEPS],
    /// How many columns of the mirror have been written.
    pub drum_grid_len: u32,
    /// The generator's seed.
    pub gen_seed: u64,
    /// Bumped by the control side to ask for a fresh pattern. A counter rather
    /// than a flag, so two requests in one frame cannot collapse into one.
    pub gen_regenerate: u32,
    /// The pattern that is actually playing, mirrored for display.
    pub pattern: [u32; MAX_STEPS],
    /// How many of those steps have been written. The mirror carries its own
    /// length: the knob could promise steps that were never published.
    pub pattern_len: u32,
    /// A pattern staged by the control side, waiting to be adopted.
    pub pending_pattern: [u32; MAX_STEPS],
    /// How many steps of `pending_pattern` are meaningful.
    pub pending_length: u32,
    /// Bumped once the staging array is fully written, and never before.
    pub pending_request: u32,
    /// The bass generator's seed.
    pub bass_gen_seed: u64,
    /// Bumped to ask for a fresh bass line.
    pub bass_regenerate: u32,
    /// The bass line that is actually playing, mirrored for display.
    pub bass_pattern: [u32; MAX_STEPS],
    /// How many of those steps have been written.
    pub bass_pattern_len: u32,
    /// Current sequencer step, for display.
    pub current_step: u32,
    /// Current drum step, for display.
    pub drum_position: u32,
    /// Current bass step, for display.
    pub bass_step: u32,
    /// How many voices are sounding, for display.
    pub active_voices: u32,
    /// Peak output level since last read, for a meter.
    pub output_peak: AtomicF32,
    /// Gain reduction of the synth compressor, in decibels.
    pub comp_synth_gr: AtomicF32,
    /// Gain reduction of the master compressor, in decibels.
    pub comp_master_gr: AtomicF32,
    /// Gain reduction of the bass compressor, in decibels.
    pub comp_bass_gr: AtomicF32,
}

impl SharedParams {
    /// Whether the words hold the given patch.
    pub open spec fn holds(self, p: Params) -> bool {
        &&& self.osc1_wave@ == p.osc1_wave.number()
        &&& self.osc1_level@ == p.osc1_level
        &&& self.osc1_semitones@ == p.osc1_semitones
        &&& self.osc1_detune@ == p.osc1_detune
        &&& self.osc2_wave@ == p.osc2_wave.number()
        &&& self.osc2_level@ == p.osc2_level
        &&& self.osc2_semitones@ == p.osc2_semitones
        &&& self.osc2_detune@ == p.osc2_detune
        &&& self.pulse_width@ == p.pulse_width
        &&& self.sub_level@ == p.sub_level
        &&& self.noise_level@ == p.noise_level
        &&& self.filter_mode@ == p.filter_mode.number()
        &&& self.filter_slope@ == p.filter_slope.number()
        &&& self.cutoff@ == p.cutoff
        &&& self.resonance@ == p.resonance
        &&& self.filter_env_amount@ == p.filter_env_amount
        &&& self.filter_key_track@ == p.filter_key_track
        &&& self.filter_velocity@ == p.filter_velocity
        &&& self.amp_attack@ == p.amp_env.attack
        &&& self.amp_decay@ == p.amp_env.decay
        &&& self.amp_sustain@ == p.amp_env.sustain
        &&& self.amp_release@ == p.amp_env.release
        &&& self.filter_attack@ == p.filter_env.attack
        &&& self.filter_decay@ == p.filter_env.decay
        &&& self.filter_sustain@ == p.filter_env.sustain
        &&& self.filter_release@ == p.filter_env.release
        &&& self.lfo_wave@ == p.lfo_wave.number()
        &&& self.lfo_rate@ == p.lfo_rate
        &&& self.lfo_depth@ == p.lfo_depth
        &&& self.lfo_target@ == p.lfo_target.number()
        &&& self.lfo_retrigger@ == p.lfo_retrigger
        &&& self.voice_mode@ == p.voice_mode.number()
        &&& self.max_voices@ == p.max_voices as int % 0x1_0000_0000
        &&& self.glide@ == p.glide
        &&& self.legato@ == p.legato
        &&& self.pitch_bend@ == p.pitch_bend
        &&& self.mod_wheel@ == p.mod_wheel
        &&& self.master_gain@ == p.master_gain
        &&& self.synth_gain@ == p.synth_gain
        &&& self.synth_send@ == p.synth_send
        &&& self.comp_synth.holds(p.comp_synth)
        &&& self.comp_master.holds(p.comp_master)
        &&& self.drum_gain@ == p.drum_gain
        &&& self.drive@ == p.drive
        &&& self.delay_mix@ == p.delay_mix
        &&& self.delay_sync@ == p.delay_sync
        &&& self.delay_time@ == p.delay_time
        &&& self.delay_division@ == p.delay_division.number()
        &&& self.delay_feedback@ == p.delay_feedback
        &&& self.delay_damping@ == p.delay_damping
        &&& self.delay_ping_pong@ == p.delay_ping_pong
        &&& self.reverb_mix@ == p.reverb_mix
        &&& self.reverb_size@ == p.reverb_size
        &&& self.reverb_damping@ == p.reverb_damping
        &&& self.reverb_predelay@ == p.reverb_predelay
        &&& self.reverb_width@ == p.reverb_width
        &&& self.seq_playing@ == p.seq_playing
        &&& self.clock_source@ == p.clock_source.number()
        &&& self.tempo@ == p.tempo
        &&& self.steps_per_beat@ == p.steps_per_beat
        &&& self.seq_length@ == p.seq_length as int % 0x1_0000_0000
        &&& self.seq_gate@ == p.seq_gate
        &&& self.seq_swing@ == p.seq_swing
        &&& self.drum_enabled@ == p.drum_enabled
        &&& self.melody_enabled@ == p.melody_enabled
        &&& self.drum_length@ == p.drum_length as int % 0x1_0000_0000
        &&& self.drum_level@ == p.drum_level
        &&& self.drum_to_fx@ == p.drum_to_fx
        &&& self.drum_send@ == p.drum_send
        &&& forall|i: int| 0 <= i < PAD_COUNT ==> (#[trigger] self.pad_pan[i])@ == p.pad_pan[i]
        &&& forall|i: int| 0 <= i < PAD_COUNT ==> (#[trigger] self.pad_send[i])@ == p.pad_send[i]
        &&& forall|i: int| 0 <= i < PAD_COUNT ==> (#[trigger] self.pad_level[i])@ == p.pad_level[i]
        &&& forall|i: int| 0 <= i < PAD_COUNT ==> (#[trigger] self.pad_tune[i])@ == p.pad_tune[i]
        &&& forall|i: int| 0 <= i < PAD_COUNT ==> (#[trigger] self.pad_decay[i])@ == p.pad_decay[i]
        &&& forall|i: int| 0 <= i < PAD_COUNT ==> (#[trigger] self.pad_mute[i])@ == p.pad_mute[i]
        &&& self.gen_enabled@ == p.gen_enabled
        &&& self.gen_root@ == p.gen_root
        &&& self.gen_scale@ == p.gen_scale.number()
        &&& as_signed(self.gen_octave@) == p.gen_octave
        &&& self.gen_range@ == p.gen_range
        &&& self.gen_density@ == p.gen_density
        &&& self.gen_max_jump@ == p.gen_max_jump
        &&& self.gen_chord_bias@ == p.gen_chord_bias
        &&& self.bass_enabled@ == p.bass_enabled
        &&& self.bass.holds(p.bass)
        &&& self.comp_bass.holds(p.comp_bass)
        &&& self.bass_gain@ == p.bass_gain
        &&& self.bass_send@ == p.bass_send
        &&& self.bass_seq_length@ == p.bass_seq_length as int % 0x1_0000_0000
        &&& as_signed(self.bass_gen_octave@) == p.bass_gen_octave
        &&& self.bass_gen_range@ == p.bass_gen_range
        &&& self.bass_gen_density@ == p.bass_gen_density
        &&& self.bass_gen_max_jump@ == p.bass_gen_max_jump
        &&& self.bass_gen_chord_bias@ == p.bass_gen_chord_bias
        &&& self.bass_slide_chance@ == p.bass_slide_chance
        &&& self.bass_accent_chance@ == p.bass_accent_chance
    }

    /// Whether reading every word, validated, gives `p`.
    pub open spec fn reads(self, p: Params) -> bool {
        &&& self.osc1_wave@ < 5 ==> p.osc1_wave.number() == self.osc1_wave@
        &&& self.osc1_wave@ >= 5 ==> p.osc1_wave == Waveform::Saw
        &&& p.osc1_level == held(self.osc1_level@, of(0x3F4C_CCCD), of(0x0000_0000), of(0x3F80_0000))
        &&& p.osc1_semitones == held(self.osc1_semitones@, of(0x0000_0000), of(0xC210_0000), of(0x4210_0000))
        &&& p.osc1_detune == held(self.osc1_detune@, of(0x0000_0000), of(0xC2C8_0000), of(0x42C8_0000))
        &&& self.osc2_wave@ < 5 ==> p.osc2_wave.number() == self.osc2_wave@
        &&& self.osc2_wave@ >= 5 ==> p.osc2_wave == Waveform::Saw
        &&& p.osc2_level == held(self.osc2_level@, of(0x3F00_0000), of(0x0000_0000), of(0x3F80_0000))
        &&& p.osc2_semitones == held(self.osc2_semitones@, of(0x0000_0000), of(0xC210_0000), of(0x4210_0000))
        &&& p.osc2_detune == held(self.osc2_detune@, of(0x40E0_0000), of(0xC2C8_0000), of(0x42C8_0000))
        &&& p.pulse_width == held(self.pulse_width@, of(0x3F00_0000), of(0x3D4C_CCCD), of(0x3F73_3333))
        &&& p.sub_level == held(self.sub_level@, of(0x0000_0000), of(0x0000_0000), of(0x3F80_0000))
        &&& p.noise_level == held(self.noise_level@, of(0x0000_0000), of(0x0000_0000), of(0x3F80_0000))
        &&& self.filter_mode@ < 6 ==> p.filter_mode.number() == self.filter_mode@
        &&& self.filter_mode@ >= 6 ==> p.filter_mode == SvfMode::Lowpass
        &&& self.filter_slope@ < 2 ==> p.filter_slope.number() == self.filter_slope@
        &&& self.filter_slope@ >= 2 ==> p.filter_slope == Slope::Db12
        &&& p.cutoff == held(self.cutoff@, of(0x44FA_0000), of(0x41A0_0000), of(0x469C_4000))
        &&& p.resonance == held(self.resonance@, of(0x3E80_0000), of(0x0000_0000), of(0x3F80_0000))
        &&& p.filter_env_amount == held(self.filter_env_amount@, of(0x4000_0000), of(0xC100_0000), of(0x4100_0000))
        &&& p.filter_key_track == held(self.filter_key_track@, of(0x3EB3_3333), of(0x0000_0000), of(0x3F80_0000))
        &&& p.filter_velocity == held(self.filter_velocity@, of(0x3ECC_CCCD), of(0x0000_0000), of(0x3F80_0000))
        &&& p.amp_env.attack == held(self.amp_attack@, of(0x3BA3_D70A), of(0x0000_0000), of(0x41A0_0000))
        &&& p.amp_env.decay == held(self.amp_decay@, of(0x3E80_0000), of(0x0000_0000), of(0x41A0_0000))
        &&& p.amp_env.sustain == held(self.amp_sustain@, of(0x3F33_3333), of(0x0000_0000), of(0x3F80_0000))
        &&& p.amp_env.release == held(self.amp_release@, of(0x3E80_0000), of(0x3A83_126F), of(0x41A0_0000))
        &&& p.filter_env.attack == held(self.filter_attack@, of(0x3B03_126F), of(0x0000_0000), of(0x41A0_0000))
        &&& p.filter_env.decay == held(self.filter_decay@, of(0x3EB3_3333), of(0x0000_0000), of(0x41A0_0000))
        &&& p.filter_env.sustain == held(self.filter_sustain@, of(0x3E80_0000), of(0x0000_0000), of(0x3F80_0000))
        &&& p.filter_env.release == held(self.filter_release@, of(0x3E99_999A), of(0x3A83_126F), of(0x41A0_0000))
        &&& self.lfo_wave@ < 6 ==> p.lfo_wave.number() == self.lfo_wave@
        &&& self.lfo_wave@ >= 6 ==> p.lfo_wave == LfoWave::Sine
        &&& p.lfo_rate == held(self.lfo_rate@, of(0x40A0_0000), of(0x3C23_D70A), of(0x4220_0000))
        &&& p.lfo_depth == held(self.lfo_depth@, of(0x0000_0000), of(0x0000_0000), of(0x3F80_0000))
        &&& self.lfo_target@ < 5 ==> p.lfo_target.number() == self.lfo_target@
        &&& self.lfo_target@ >= 5 ==> p.lfo_target == LfoTarget::Off
        &&& p.lfo_retrigger == self.lfo_retrigger@
        &&& self.voice_mode@ < 2 ==> p.voice_mode.number() == self.voice_mode@
        &&& self.voice_mode@ >= 2 ==> p.voice_mode == VoiceMode::Poly
        &&& p.max_voices == counted(self.max_voices@ as int, 1, MAX_VOICES as int)
        &&& p.glide == held(self.glide@, of(0x0000_0000), of(0x0000_0000), of(0x40A0_0000))
        &&& p.legato == self.legato@
        &&& p.pitch_bend == held(self.pitch_bend@, of(0x0000_0000), of(0xC1C0_0000), of(0x41C0_0000))
        &&& p.mod_wheel == held(self.mod_wheel@, of(0x0000_0000), of(0x0000_0000), of(0x3F80_0000))
        &&& p.master_gain == held(self.master_gain@, of(0x3F00_0000), of(0x0000_0000), of(0x4000_0000))
        &&& p.synth_gain == held(self.synth_gain@, of(0x3F80_0000), of(0x0000_0000), of(0x4000_0000))
        &&& p.synth_send == unit(self.synth_send@)
        &&& self.comp_synth.reads(p.comp_synth)
        &&& self.comp_master.reads(p.comp_master)
        &&& p.drum_gain == held(self.drum_gain@, of(0x3F80_0000), of(0x0000_0000), of(0x4000_0000))
        &&& p.drive == held(self.drive@, of(0x3F80_0000), of(0x3DCC_CCCD), of(0x41A0_0000))
        &&& p.delay_mix == unit(self.delay_mix@)
        &&& p.delay_sync == self.delay_sync@
        &&& p.delay_time == settled(self.delay_time@, of(0x3EC0_0000), of(0x3A83_126F), of(0x4000_0000))
        &&& self.delay_division@ < 9 ==> p.delay_division.number() == self.delay_division@
        &&& self.delay_division@ >= 9 ==> p.delay_division == NoteDivision::Eighth
        &&& p.delay_feedback == held(self.delay_feedback@, of(0x0000_0000), of(0x0000_0000), of(0x3F73_3333))
        &&& p.delay_damping == unit(self.delay_damping@)
        &&& p.delay_ping_pong == self.delay_ping_pong@
        &&& p.reverb_mix == unit(self.reverb_mix@)
        &&& p.reverb_size == unit(self.reverb_size@)
        &&& p.reverb_damping == unit(self.reverb_damping@)
        &&& p.reverb_predelay == settled(self.reverb_predelay@, of(0x3CA3_D70A), of(0x0000_0000), of(0x3E80_0000))
        &&& p.reverb_width == unit(self.reverb_width@)
        &&& p.seq_playing == self.seq_playing@
        &&& self.clock_source@ < 2 ==> p.clock_source.number() == self.clock_source@
        &&& self.clock_source@ >= 2 ==> p.clock_source == ClockSource::Internal
        &&& p.tempo == held(self.tempo@, of(0x42F0_0000), of(0x41A0_0000), of(0x4396_0000))
        &&& p.steps_per_beat == held(self.steps_per_beat@, of(0x4080_0000), of(0x3E80_0000), of(0x4180_0000))
        &&& p.seq_length == counted(self.seq_length@ as int, 1, MAX_STEPS as int)
        &&& p.seq_gate == held(self.seq_gate@, of(0x3F19_999A), of(0x3D4C_CCCD), of(0x4000_0000))
        &&& p.seq_swing == held(self.seq_swing@, of(0x0000_0000), of(0x0000_0000), of(0x3F40_0000))
        &&& p.drum_enabled == self.drum_enabled@
        &&& p.melody_enabled == self.melody_enabled@
        &&& p.drum_length == counted(self.drum_length@ as int, 1, MAX_STEPS as int)
        &&& p.drum_level == unit(self.drum_level@)
        &&& p.drum_to_fx == self.drum_to_fx@
        &&& p.drum_send == unit(self.drum_send@)
        &&& forall|i: int|
            0 <= i < PAD_COUNT ==> #[trigger] p.pad_pan[i] == settled(self.pad_pan[i]@, of(0x0000_0000), of(0xBF80_0000), of(0x3F80_0000))
        &&& forall|i: int|
            0 <= i < PAD_COUNT ==> #[trigger] p.pad_send[i] == unit(self.pad_send[i]@)
        &&& forall|i: int|
            0 <= i < PAD_COUNT ==> #[trigger] p.pad_level[i] == unit(self.pad_level[i]@)
        &&& forall|i: int|
            0 <= i < PAD_COUNT ==> #[trigger] p.pad_tune[i] == settled(self.pad_tune[i]@, of(0x0000_0000), of(0xC140_0000), of(0x4140_0000))
        &&& forall|i: int|
            0 <= i < PAD_COUNT ==> #[trigger] p.pad_decay[i] == settled(self.pad_decay[i]@, of(0x3F80_0000), of(0x3E80_0000), of(0x4080_0000))
        &&& forall|i: int|
            0 <= i < PAD_COUNT ==> #[trigger] p.pad_mute[i] == self.pad_mute[i]@
        &&& p.gen_enabled == self.gen_enabled@
        &&& p.gen_root == self.gen_root@ % 12
        &&& self.gen_scale@ < 14 ==> p.gen_scale.number() == self.gen_scale@
        &&& self.gen_scale@ >= 14 ==> p.gen_scale == Scale::MinorPentatonic
        &&& p.gen_octave == counted(as_signed(self.gen_octave@), 0, 8)
        &&& p.gen_range == counted(self.gen_range@ as int, 1, 5)
        &&& p.gen_density == held(self.gen_density@, of(0x3F40_0000), of(0x0000_0000), of(0x3F80_0000))
        &&& p.gen_max_jump == held(self.gen_max_jump@, of(0x4040_0000), of(0x3F80_0000), of(0x4140_0000))
        &&& p.gen_chord_bias == held(self.gen_chord_bias@, of(0x3F19_999A), of(0x0000_0000), of(0x3F80_0000))
        &&& p.bass_enabled == self.bass_enabled@
        &&& self.bass.reads(p.bass)
        &&& self.comp_bass.reads(p.comp_bass)
        &&& p.bass_gain == held(self.bass_gain@, of(0x3F80_0000), of(0x0000_0000), of(0x4000_0000))
        &&& p.bass_send == unit(self.bass_send@)
        &&& p.bass_seq_length == counted(self.bass_seq_length@ as int, 1, MAX_STEPS as int)
        &&& p.bass_gen_octave == counted(as_signed(self.bass_gen_octave@), 0, 7)
        &&& p.bass_gen_range == counted(self.bass_gen_range@ as int, 1, 4)
        &&& p.bass_gen_density == unit(self.bass_gen_density@)
        &&& p.bass_gen_max_jump == settled(self.bass_gen_max_jump@, of(0x40A0_0000), of(0x3F80_0000), of(0x4140_0000))
        &&& p.bass_gen_chord_bias == unit(self.bass_gen_chord_bias@)
        &&& p.bass_slide_chance == unit(self.bass_slide_chance@)
        &&& p.bass_accent_chance == unit(self.bass_accent_chance@)
    }

    /// Whether two blocks agree on everything that is not part of a patch: the
    /// mirrors, the staging area, the counters, the seeds and the telemetry.
    pub open spec fn same_beyond_patch(self, other: SharedParams) -> bool {
        &&& self.drum_grid == other.drum_grid
        &&& self.drum_grid_len == other.drum_grid_len
        &&& self.gen_seed == other.gen_seed
        &&& self.gen_regenerate == other.gen_regenerate
        &&& self.pattern == other.pattern
        &&& self.pattern_len == other.pattern_len
        &&& self.pending_pattern == other.pending_pattern
        &&& self.pending_length == other.pending_length
        &&& self.pending_request == other.pending_request
        &&& self.bass_gen_seed == other.bass_gen_seed
        &&& self.bass_regenerate == other.bass_regenerate
        &&& self.bass_pattern == other.bass_pattern
        &&& self.bass_pattern_len == other.bass_pattern_len
        &&& self.current_step == other.current_step
        &&& self.drum_position == other.drum_position
        &&& self.bass_step == other.bass_step
        &&& self.active_voices == other.active_voices
        &&& self.output_peak == other.output_peak
        &&& self.comp_synth_gr == other.comp_synth_gr
        &&& self.comp_master_gr == other.comp_master_gr
        &&& self.comp_bass_gr == other.comp_bass_gr
    }

    /// Whether nothing has been published, staged, asked for or measured yet.
    pub open spec fn fresh(self, p: Params) -> bool {
        &&& forall|i: int|
                0 <= i < MAX_STEPS ==> #[trigger] self.drum_grid[i] == pattern::packed(
                    Seq::new(8, |k: int| Cell::blank()),
                )
        &&& self.drum_grid_len == p.drum_length as int % 0x1_0000_0000
        &&& self.gen_seed == 0x5EED_1234_ABCD_0001
        &&& self.gen_regenerate == 0
        &&& forall|i: int| 0 <= i < MAX_STEPS ==> #[trigger] self.pattern[i] == 0
        &&& self.pattern_len == p.seq_length as int % 0x1_0000_0000
        &&& forall|i: int| 0 <= i < MAX_STEPS ==> #[trigger] self.pending_pattern[i] == 0
        &&& self.pending_length == 0
        &&& self.pending_request == 0
        &&& self.bass_gen_seed == 0x5EED_1234_ABCD_0002
        &&& self.bass_regenerate == 0
        &&& forall|i: int| 0 <= i < MAX_STEPS ==> #[trigger] self.bass_pattern[i] == 0
        &&& self.bass_pattern_len == p.bass_seq_length as int % 0x1_0000_0000
        &&& self.current_step == 0
        &&& self.drum_position == 0
        &&& self.bass_step == 0
        &&& self.active_voices == 0
        &&& self.output_peak@ == of(0)
        &&& self.comp_synth_gr@ == of(0)
        &&& self.comp_master_gr@ == of(0)
        &&& self.comp_bass_gr@ == of(0)
    }

    /// Builds a shared block from a plain patch. This is how patches load.
    pub fn from_params(p: &Params) -> (s: SharedParams)
        ensures
            s.holds(*p),
            s.fresh(*p),
    {
        // A default column rather than a zero word: the velocity is meaningful
        // for silent cells too, so all-zeroes would decode as eight cells at
        // the softest level rather than as an untouched grid.
        let blank: Column = [Cell::default(); PAD_COUNT];
        let blank_word: u32 = pack_column(&blank);
        assert(blank@ =~= Seq::new(8, |k: int| Cell::blank()));
        let pad_pan: [AtomicF32; PAD_COUNT] = knobs(&p.pad_pan);
        let pad_send: [AtomicF32; PAD_COUNT] = knobs(&p.pad_send);
        let pad_level: [AtomicF32; PAD_COUNT] = knobs(&p.pad_level);
        let pad_tune: [AtomicF32; PAD_COUNT] = knobs(&p.pad_tune);
        let pad_decay: [AtomicF32; PAD_COUNT] = knobs(&p.pad_decay);
        let pad_mute: [AtomicBool32; PAD_COUNT] = switches(&p.pad_mute);
        SharedParams {
            osc1_wave: AtomicEnum::new(p.osc1_wave.to_u32()),
            osc1_level: AtomicF32::new(p.osc1_level),
            osc1_semitones: AtomicF32::new(p.osc1_semitones),
            osc1_detune: AtomicF32::new(p.osc1_detune),
            osc2_wave: AtomicEnum::new(p.osc2_wave.to_u32()),
            osc2_level: AtomicF32::new(p.osc2_level),
            osc2_semitones: AtomicF32::new(p.osc2_semitones),
            osc2_detune: AtomicF32::new(p.osc2_detune),
            pulse_width: AtomicF32::new(p.pulse_width),
            sub_level: AtomicF32::new(p.sub_level),
            noise_level: AtomicF32::new(p.noise_level),
            filter_mode: AtomicEnum::new(p.filter_mode.to_u32()),
            filter_slope: AtomicEnum::new(p.filter_slope.to_u32()),
            cutoff: AtomicF32::new(p.cutoff),
            resonance: AtomicF32::new(p.resonance),
            filter_env_amount: AtomicF32::new(p.filter_env_amount),
            filter_key_track: AtomicF32::new(p.filter_key_track),
            filter_velocity: AtomicF32::new(p.filter_velocity),
            amp_attack: AtomicF32::new(p.amp_env.attack),
            amp_decay: AtomicF32::new(p.amp_env.decay),
            amp_sustain: AtomicF32::new(p.amp_env.sustain),
            amp_release: AtomicF32::new(p.amp_env.release),
            filter_attack: AtomicF32::new(p.filter_env.attack),
            filter_decay: AtomicF32::new(p.filter_env.decay),
            filter_sustain: AtomicF32::new(p.filter_env.sustain),
            filter_release: AtomicF32::new(p.filter_env.release),
            lfo_wave: AtomicEnum::new(p.lfo_wave.to_u32()),
            lfo_rate: AtomicF32::new(p.lfo_rate),
            lfo_depth: AtomicF32::new(p.lfo_depth),
            lfo_target: AtomicEnum::new(p.lfo_target.to_u32()),
            lfo_retrigger: AtomicBool32::new(p.lfo_retrigger),
            voice_mode: AtomicEnum::new(p.voice_mode.to_u32()),
            max_voices: AtomicEnum::new(low_word(p.max_voices)),
            glide: AtomicF32::new(p.glide),
            legato: AtomicBool32::new(p.legato),
            pitch_bend: AtomicF32::new(p.pitch_bend),
            mod_wheel: AtomicF32::new(p.mod_wheel),
            master_gain: AtomicF32::new(p.master_gain),
            synth_gain: AtomicF32::new(p.synth_gain),
            synth_send: AtomicF32::new(p.synth_send),
            comp_synth: SharedCompressor::new(&p.comp_synth),
            comp_master: SharedCompressor::new(&p.comp_master),
            drum_gain: AtomicF32::new(p.drum_gain),
            drive: AtomicF32::new(p.drive),
            delay_mix: AtomicF32::new(p.delay_mix),
            delay_sync: AtomicBool32::new(p.delay_sync),
            delay_time: AtomicF32::new(p.delay_time),
            delay_division: AtomicEnum::new(p.delay_division.to_u32()),
            delay_feedback: AtomicF32::new(p.delay_feedback),
            delay_damping: AtomicF32::new(p.delay_damping),
            delay_ping_pong: AtomicBool32::new(p.delay_ping_pong),
            reverb_mix: AtomicF32::new(p.reverb_mix),
            reverb_size: AtomicF32::new(p.reverb_size),
            reverb_damping: AtomicF32::new(p.reverb_damping),
            reverb_predelay: AtomicF32::new(p.reverb_predelay),
            reverb_width: AtomicF32::new(p.reverb_width),
            seq_playing: AtomicBool32::new(p.seq_playing),
            clock_source: AtomicEnum::new(p.clock_source.to_u32()),
            tempo: AtomicF32::new(p.tempo),
            steps_per_beat: AtomicF32::new(p.steps_per_beat),
            seq_length: AtomicEnum::new(low_word(p.seq_length)),
            seq_gate: AtomicF32::new(p.seq_gate),
            seq_swing: AtomicF32::new(p.seq_swing),
            drum_enabled: AtomicBool32::new(p.drum_enabled),
            melody_enabled: AtomicBool32::new(p.melody_enabled),
            drum_length: AtomicEnum::new(low_word(p.drum_length)),
            drum_level: AtomicF32::new(p.drum_level),
            drum_to_fx: AtomicBool32::new(p.drum_to_fx),
            drum_send: AtomicF32::new(p.drum_send),
            pad_pan,
            pad_send,
            pad_level,
            pad_tune,
            pad_decay,
            pad_mute,
            gen_enabled: AtomicBool32::new(p.gen_enabled),
            gen_root: AtomicEnum::new(p.gen_root as u32),
            gen_scale: AtomicEnum::new(p.gen_scale.to_u32()),
            gen_octave: AtomicEnum::new(signed_word(p.gen_octave)),
            gen_range: AtomicEnum::new(p.gen_range),
            gen_density: AtomicF32::new(p.gen_density),
            gen_max_jump: AtomicF32::new(p.gen_max_jump),
            gen_chord_bias: AtomicF32::new(p.gen_chord_bias),
            bass_enabled: AtomicBool32::new(p.bass_enabled),
            bass: SharedBass::new(&p.bass),
            comp_bass: SharedCompressor::new(&p.comp_bass),
            bass_gain: AtomicF32::new(p.bass_gain),
            bass_send: AtomicF32::new(p.bass_send),
            bass_seq_length: AtomicEnum::new(low_word(p.bass_seq_length)),
            bass_gen_octave: AtomicEnum::new(signed_word(p.bass_gen_octave)),
            bass_gen_range: AtomicEnum::new(p.bass_gen_range),
            bass_gen_density: AtomicF32::new(p.bass_gen_density),
            bass_gen_max_jump: AtomicF32::new(p.bass_gen_max_jump),
            bass_gen_chord_bias: AtomicF32::new(p.bass_gen_chord_bias),
            bass_slide_chance: AtomicF32::new(p.bass_slide_chance),
            bass_accent_chance: AtomicF32::new(p.bass_accent_chance),
            drum_grid: [blank_word; MAX_STEPS],
            drum_grid_len: low_word(p.drum_length),
            gen_seed: 0x5EED_1234_ABCD_0001,
            gen_regenerate: 0,
            pattern: [0; MAX_STEPS],
            pattern_len: low_word(p.seq_length),
            pending_pattern: [0; MAX_STEPS],
            pending_length: 0,
            pending_request: 0,
            bass_gen_seed: 0x5EED_1234_ABCD_0002,
            bass_regenerate: 0,
            bass_pattern: [0; MAX_STEPS],
            bass_pattern_len: low_word(p.bass_seq_length),
            current_step: 0,
            drum_position: 0,
            bass_step: 0,
            active_voices: 0,
            output_peak: AtomicF32::new(of(0)),
            comp_synth_gr: AtomicF32::new(of(0)),
            comp_master_gr: AtomicF32::new(of(0)),
            comp_bass_gr: AtomicF32::new(of(0)),
        }
    }

    /// Reads every parameter into a plain struct. Called once per block by the
    /// audio side, and validated as it goes so no out-of-range value from the
    /// control side can reach the sound generator.
    pub fn snapshot(&self) -> (p: Params)
        ensures
            self.reads(p),
            p.in_range(),
    {
        let pad_pan: [Single; PAD_COUNT] = sane_all(&self.pad_pan, of(0x0000_0000), of(0xBF80_0000), of(0x3F80_0000));
        let pad_send: [Single; PAD_COUNT] = units(&self.pad_send);
        let pad_level: [Single; PAD_COUNT] = units(&self.pad_level);
        let pad_tune: [Single; PAD_COUNT] = sane_all(&self.pad_tune, of(0x0000_0000), of(0xC140_0000), of(0x4140_0000));
        let pad_decay: [Single; PAD_COUNT] = sane_all(&self.pad_decay, of(0x3F80_0000), of(0x3E80_0000), of(0x4080_0000));
        let pad_mute: [bool; PAD_COUNT] = flags(&self.pad_mute);
        Params {
            osc1_wave: Waveform::from_u32(self.osc1_wave.get()),
            osc1_level: hold(self.osc1_level.get(), of(0x3F4C_CCCD), of(0x0000_0000), of(0x3F80_0000)),
            osc1_semitones: hold(self.osc1_semitones.get(), of(0x0000_0000), of(0xC210_0000), of(0x4210_0000)),
            osc1_detune: hold(self.osc1_detune.get(), of(0x0000_0000), of(0xC2C8_0000), of(0x42C8_0000)),
            osc2_wave: Waveform::from_u32(self.osc2_wave.get()),
            osc2_level: hold(self.osc2_level.get(), of(0x3F00_0000), of(0x0000_0000), of(0x3F80_0000)),
            osc2_semitones: hold(self.osc2_semitones.get(), of(0x0000_0000), of(0xC210_0000), of(0x4210_0000)),
            osc2_detune: hold(self.osc2_detune.get(), of(0x40E0_0000), of(0xC2C8_0000), of(0x42C8_0000)),
            pulse_width: hold(self.pulse_width.get(), of(0x3F00_0000), of(0x3D4C_CCCD), of(0x3F73_3333)),
            sub_level: hold(self.sub_level.get(), of(0x0000_0000), of(0x0000_0000), of(0x3F80_0000)),
            noise_level: hold(self.noise_level.get(), of(0x0000_0000), of(0x0000_0000), of(0x3F80_0000)),
            filter_mode: SvfMode::from_u32(self.filter_mode.get()),
            filter_slope: Slope::from_u32(self.filter_slope.get()),
            cutoff: hold(self.cutoff.get(), of(0x44FA_0000), of(0x41A0_0000), of(0x469C_4000)),
            resonance: hold(self.resonance.get(), of(0x3E80_0000), of(0x0000_0000), of(0x3F80_0000)),
            filter_env_amount: hold(self.filter_env_amount.get(), of(0x4000_0000), of(0xC100_0000), of(0x4100_0000)),
            filter_key_track: hold(self.filter_key_track.get(), of(0x3EB3_3333), of(0x0000_0000), of(0x3F80_0000)),
            filter_velocity: hold(self.filter_velocity.get(), of(0x3ECC_CCCD), of(0x0000_0000), of(0x3F80_0000)),
            amp_env: AdsrSettings {
                attack: hold(self.amp_attack.get(), of(0x3BA3_D70A), of(0x0000_0000), of(0x41A0_0000)),
                decay: hold(self.amp_decay.get(), of(0x3E80_0000), of(0x0000_0000), of(0x41A0_0000)),
                sustain: hold(self.amp_sustain.get(), of(0x3F33_3333), of(0x0000_0000), of(0x3F80_0000)),
                release: hold(self.amp_release.get(), of(0x3E80_0000), of(0x3A83_126F), of(0x41A0_0000)),
            },
            filter_env: AdsrSettings {
                attack: hold(self.filter_attack.get(), of(0x3B03_126F), of(0x0000_0000), of(0x41A0_0000)),
                decay: hold(self.filter_decay.get(), of(0x3EB3_3333), of(0x0000_0000), of(0x41A0_0000)),
                sustain: hold(self.filter_sustain.get(), of(0x3E80_0000), of(0x0000_0000), of(0x3F80_0000)),
                release: hold(self.filter_release.get(), of(0x3E99_999A), of(0x3A83_126F), of(0x41A0_0000)),
            },
            lfo_wave: LfoWave::from_u32(self.lfo_wave.get()),
            lfo_rate: hold(self.lfo_rate.get(), of(0x40A0_0000), of(0x3C23_D70A), of(0x4220_0000)),
            lfo_depth: hold(self.lfo_depth.get(), of(0x0000_0000), of(0x0000_0000), of(0x3F80_0000)),
            lfo_target: LfoTarget::from_u32(self.lfo_target.get()),
            lfo_retrigger: self.lfo_retrigger.get(),
            voice_mode: VoiceMode::from_u32(self.voice_mode.get()),
            max_voices: count(self.max_voices.get(), 1, MAX_VOICES as u32) as usize,
            glide: hold(self.glide.get(), of(0x0000_0000), of(0x0000_0000), of(0x40A0_0000)),
            legato: self.legato.get(),
            pitch_bend: hold(self.pitch_bend.get(), of(0x0000_0000), of(0xC1C0_0000), of(0x41C0_0000)),
            mod_wheel: hold(self.mod_wheel.get(), of(0x0000_0000), of(0x0000_0000), of(0x3F80_0000)),
            master_gain: hold(self.master_gain.get(), of(0x3F00_0000), of(0x0000_0000), of(0x4000_0000)),
            synth_gain: hold(self.synth_gain.get(), of(0x3F80_0000), of(0x0000_0000), of(0x4000_0000)),
            synth_send: clamp01(self.synth_send.get()),
            comp_synth: self.comp_synth.snapshot(),
            comp_master: self.comp_master.snapshot(),
            drum_gain: hold(self.drum_gain.get(), of(0x3F80_0000), of(0x0000_0000), of(0x4000_0000)),
            drive: hold(self.drive.get(), of(0x3F80_0000), of(0x3DCC_CCCD), of(0x41A0_0000)),
            delay_mix: clamp01(self.delay_mix.get()),
            delay_sync: self.delay_sync.get(),
            delay_time: settle(self.delay_time.get(), of(0x3EC0_0000), of(0x3A83_126F), of(0x4000_0000)),
            delay_division: NoteDivision::from_u32(self.delay_division.get()),
            // Strictly below 1.0: at 1.0 the repeats never stop.
            delay_feedback: hold(self.delay_feedback.get(), of(0x0000_0000), of(0x0000_0000), of(0x3F73_3333)),
            delay_damping: clamp01(self.delay_damping.get()),
            delay_ping_pong: self.delay_ping_pong.get(),
            reverb_mix: clamp01(self.reverb_mix.get()),
            reverb_size: clamp01(self.reverb_size.get()),
            reverb_damping: clamp01(self.reverb_damping.get()),
            reverb_predelay: settle(self.reverb_predelay.get(), of(0x3CA3_D70A), of(0x0000_0000), of(0x3E80_0000)),
            reverb_width: clamp01(self.reverb_width.get()),
            seq_playing: self.seq_playing.get(),
            clock_source: ClockSource::from_u32(self.clock_source.get()),
            tempo: hold(self.tempo.get(), of(0x42F0_0000), of(0x41A0_0000), of(0x4396_0000)),
            steps_per_beat: hold(self.steps_per_beat.get(), of(0x4080_0000), of(0x3E80_0000), of(0x4180_0000)),
            seq_length: count(self.seq_length.get(), 1, MAX_STEPS as u32) as usize,
            seq_gate: hold(self.seq_gate.get(), of(0x3F19_999A), of(0x3D4C_CCCD), of(0x4000_0000)),
            seq_swing: hold(self.seq_swing.get(), of(0x0000_0000), of(0x0000_0000), of(0x3F40_0000)),
            drum_enabled: self.drum_enabled.get(),
            melody_enabled: self.melody_enabled.get(),
            drum_length: count(self.drum_length.get(), 1, MAX_STEPS as u32) as usize,
            drum_level: clamp01(self.drum_level.get()),
            drum_to_fx: self.drum_to_fx.get(),
            drum_send: clamp01(self.drum_send.get()),
            pad_pan,
            pad_send,
            pad_level,
            pad_tune,
            pad_decay,
            pad_mute,
            gen_enabled: self.gen_enabled.get(),
            gen_root: (self.gen_root.get() % 12) as u8,
            gen_scale: Scale::from_u32(self.gen_scale.get()),
            gen_octave: octave(self.gen_octave.get(), 8),
            gen_range: count(self.gen_range.get(), 1, 5),
            gen_density: hold(self.gen_density.get(), of(0x3F40_0000), of(0x0000_0000), of(0x3F80_0000)),
            gen_max_jump: hold(self.gen_max_jump.get(), of(0x4040_0000), of(0x3F80_0000), of(0x4140_0000)),
            gen_chord_bias: hold(self.gen_chord_bias.get(), of(0x3F19_999A), of(0x0000_0000), of(0x3F80_0000)),
            bass_enabled: self.bass_enabled.get(),
            bass: self.bass.snapshot(),
            comp_bass: self.comp_bass.snapshot(),
            bass_gain: hold(self.bass_gain.get(), of(0x3F80_0000), of(0x0000_0000), of(0x4000_0000)),
            bass_send: clamp01(self.bass_send.get()),
            bass_seq_length: count(self.bass_seq_length.get(), 1, MAX_STEPS as u32) as usize,
            bass_gen_octave: octave(self.bass_gen_octave.get(), 7),
            bass_gen_range: count(self.bass_gen_range.get(), 1, 4),
            bass_gen_density: clamp01(self.bass_gen_density.get()),
            bass_gen_max_jump: settle(self.bass_gen_max_jump.get(), of(0x40A0_0000), of(0x3F80_0000), of(0x4140_0000)),
            bass_gen_chord_bias: clamp01(self.bass_gen_chord_bias.get()),
            bass_slide_chance: clamp01(self.bass_slide_chance.get()),
            bass_accent_chance: clamp01(self.bass_accent_chance.get()),
        }
    }

    /// Writes a whole patch at once, and nothing else.
    pub fn apply(&mut self, p: &Params)
        ensures
            final(self).holds(*p),
            final(self).same_beyond_patch(*old(self)),
    {
        self.osc1_wave.set(p.osc1_wave.to_u32());
        self.osc1_level.set(p.osc1_level);
        self.osc1_semitones.set(p.osc1_semitones);
        self.osc1_detune.set(p.osc1_detune);
        self.osc2_wave.set(p.osc2_wave.to_u32());
        self.osc2_level.set(p.osc2_level);
        self.osc2_semitones.set(p.osc2_semitones);
        self.osc2_detune.set(p.osc2_detune);
        self.pulse_width.set(p.pulse_width);
        self.sub_level.set(p.sub_level);
        self.noise_level.set(p.noise_level);
        self.filter_mode.set(p.filter_mode.to_u32());
        self.filter_slope.set(p.filter_slope.to_u32());
        self.cutoff.set(p.cutoff);
        self.resonance.set(p.resonance);
        self.filter_env_amount.set(p.filter_env_amount);
        self.filter_key_track.set(p.filter_key_track);
        self.filter_velocity.set(p.filter_velocity);
        self.amp_attack.set(p.amp_env.attack);
        self.amp_decay.set(p.amp_env.decay);
        self.amp_sustain.set(p.amp_env.sustain);
        self.amp_release.set(p.amp_env.release);
        self.filter_attack.set(p.filter_env.attack);
        self.filter_decay.set(p.filter_env.decay);
        self.filter_sustain.set(p.filter_env.sustain);
        self.filter_release.set(p.filter_env.release);
        self.lfo_wave.set(p.lfo_wave.to_u32());
        self.lfo_rate.set(p.lfo_rate);
        self.lfo_depth.set(p.lfo_depth);
        self.lfo_target.set(p.lfo_target.to_u32());
        self.lfo_retrigger.set(p.lfo_retrigger);
        self.voice_mode.set(p.voice_mode.to_u32());
        self.max_voices.set(low_word(p.max_voices));
        self.glide.set(p.glide);
        self.legato.set(p.legato);
        self.pitch_bend.set(p.pitch_bend);
        self.mod_wheel.set(p.mod_wheel);
        self.master_gain.set(p.master_gain);
        self.synth_gain.set(p.synth_gain);
        self.synth_send.set(p.synth_send);
        self.comp_synth.apply(&p.comp_synth);
        self.comp_master.apply(&p.comp_master);
        self.drum_gain.set(p.drum_gain);
        self.drive.set(p.drive);
        self.delay_mix.set(p.delay_mix);
        self.delay_sync.set(p.delay_sync);
        self.delay_time.set(p.delay_time);
        self.delay_division.set(p.delay_division.to_u32());
        self.delay_feedback.set(p.delay_feedback);
        self.delay_damping.set(p.delay_damping);
        self.delay_ping_pong.set(p.delay_ping_pong);
        self.reverb_mix.set(p.reverb_mix);
        self.reverb_size.set(p.reverb_size);
        self.reverb_damping.set(p.reverb_damping);
        self.reverb_predelay.set(p.reverb_predelay);
        self.reverb_width.set(p.reverb_width);
        self.seq_playing.set(p.seq_playing);
        self.clock_source.set(p.clock_source.to_u32());
        self.tempo.set(p.tempo);
        self.steps_per_beat.set(p.steps_per_beat);
        self.seq_length.set(low_word(p.seq_length));
        self.seq_gate.set(p.seq_gate);
        self.seq_swing.set(p.seq_swing);
        self.drum_enabled.set(p.drum_enabled);
        self.melody_enabled.set(p.melody_enabled);
        self.drum_length.set(low_word(p.drum_length));
        self.drum_level.set(p.drum_level);
        self.drum_to_fx.set(p.drum_to_fx);
        self.drum_send.set(p.drum_send);
        self.pad_pan = knobs(&p.pad_pan);
        self.pad_send = knobs(&p.pad_send);
        self.pad_level = knobs(&p.pad_level);
        self.pad_tune = knobs(&p.pad_tune);
        self.pad_decay = knobs(&p.pad_decay);
        self.pad_mute = switches(&p.pad_mute);
        self.gen_enabled.set(p.gen_enabled);
        self.gen_root.set(p.gen_root as u32);
        self.gen_scale.set(p.gen_scale.to_u32());
        self.gen_octave.set(signed_word(p.gen_octave));
        self.gen_range.set(p.gen_range);
        self.gen_density.set(p.gen_density);
        self.gen_max_jump.set(p.gen_max_jump);
        self.gen_chord_bias.set(p.gen_chord_bias);
        self.bass_enabled.set(p.bass_enabled);
        self.bass.apply(&p.bass);
        self.comp_bass.apply(&p.comp_bass);
        self.bass_gain.set(p.bass_gain);
        self.bass_send.set(p.bass_send);
        self.bass_seq_length.set(low_word(p.bass_seq_length));
        self.bass_gen_octave.set(signed_word(p.bass_gen_octave));
        self.bass_gen_range.set(p.bass_gen_range);
        self.bass_gen_density.set(p.bass_gen_density);
        self.bass_gen_max_jump.set(p.bass_gen_max_jump);
        self.bass_gen_chord_bias.set(p.bass_gen_chord_bias);
        self.bass_slide_chance.set(p.bass_slide_chance);
        self.bass_accent_chance.set(p.bass_accent_chance);
    }
}

fn knobs(v: &[Single; PAD_COUNT]) -> (a: [AtomicF32; PAD_COUNT])
    ensures
        forall|i: int| 0 <= i < PAD_COUNT ==> (#[trigger] a[i])@ == v[i],
{
    let mut a: [AtomicF32; PAD_COUNT] = [AtomicF32 { word: 0 }; PAD_COUNT];
    let mut i: usize = 0;
    while i < PAD_COUNT
        invariant
            i <= 8,
            forall|k: int| 0 <= k < i ==> (#[trigger] a[k])@ == v[k],
        decreases 8 - i,
    {
        a[i] = AtomicF32::new(v[i]);
        i = i + 1;
    }
    a
}

fn switches(v: &[bool; PAD_COUNT]) -> (a: [AtomicBool32; PAD_COUNT])
    ensures
        forall|i: int| 0 <= i < PAD_COUNT ==> (#[trigger] a[i])@ == v[i],
{
    let mut a: [AtomicBool32; PAD_COUNT] = [AtomicBool32 { word: 0 }; PAD_COUNT];
    let mut i: usize = 0;
    while i < PAD_COUNT
        invariant
            i <= 8,
            forall|k: int| 0 <= k < i ==> (#[trigger] a[k])@ == v[k],
        decreases 8 - i,
    {
        a[i] = AtomicBool32::new(v[i]);
        i = i + 1;
    }
    a
}

fn flags(a: &[AtomicBool32; PAD_COUNT]) -> (v: [bool; PAD_COUNT])
    ensures
        forall|i: int| 0 <= i < PAD_COUNT ==> #[trigger] v[i] == a[i]@,
{
    let mut v: [bool; PAD_COUNT] = [false; PAD_COUNT];
    let mut i: usize = 0;
    while i < PAD_COUNT
        invariant
            i <= 8,
            forall|k: int| 0 <= k < i ==> #[trigger] v[k] == a[k]@,
        decreases 8 - i,
    {
        v[i] = a[i].get();
        i = i + 1;
    }
    v
}

fn units(a: &[AtomicF32; PAD_COUNT]) -> (v: [Single; PAD_COUNT])
    ensures
        forall|i: int|
            0 <= i < PAD_COUNT ==> #[trigger] v[i] == unit(a[i]@) && within(
                v[i],
                of(0),
                of(0x3F80_0000),
            ),
{
    let mut v: [Single; PAD_COUNT] = [Single { bits: 0 }; PAD_COUNT];
    let mut i: usize = 0;
    while i < PAD_COUNT
        invariant
            i <= 8,
            forall|k: int|
                0 <= k < i ==> #[trigger] v[k] == unit(a[k]@) && within(
                    v[k],
                    of(0),
                    of(0x3F80_0000),
                ),
        decreases 8 - i,
    {
        v[i] = clamp01(a[i].get());
        i = i + 1;
    }
    v
}

fn sane_all(a: &[AtomicF32; PAD_COUNT], fallback: Single, lo: Single, hi: Single) -> (v: [Single;
    PAD_COUNT])
    requires
        lo.at_most(fallback),
        fallback.at_most(hi),
    ensures
        forall|i: int|
            0 <= i < PAD_COUNT ==> #[trigger] v[i] == settled(a[i]@, fallback, lo, hi) && within(
                v[i],
                lo,
                hi,
            ),
{
    let mut v: [Single; PAD_COUNT] = [Single { bits: 0 }; PAD_COUNT];
    let mut i: usize = 0;
    while i < PAD_COUNT
        invariant
            i <= 8,
            lo.at_most(fallback),
            fallback.at_most(hi),
            forall|k: int|
                0 <= k < i ==> #[trigger] v[k] == settled(a[k]@, fallback, lo, hi) && within(
                    v[k],
                    lo,
                    hi,
                ),
        decreases 8 - i,
    {
        v[i] = settle(a[i].get(), fallback, lo, hi);
        i = i + 1;
    }
    v
}

impl Default for SharedParams {
    fn default() -> (s: SharedParams)
        ensures
            exists|p: Params| #[trigger] s.holds(p) && p.is_default() && s.fresh(p),
    {
        let p: Params = Params::default();
        SharedParams::from_params(&p)
    }
}

/// A patch in range survives the trip through the words: what is written is
/// what the audio side reads.
pub proof fn law_patch_round_trip(s: SharedParams, p: Params, q: Params)
    requires
        s.holds(p),
        s.reads(q),
        p.in_range(),
    ensures
        q.same(p),
{
    broadcast use lemma_held_keeps, lemma_settled_keeps;

    law_compressor_round_trip(s.comp_synth, p.comp_synth, q.comp_synth);
    law_compressor_round_trip(s.comp_master, p.comp_master, q.comp_master);
    law_compressor_round_trip(s.comp_bass, p.comp_bass, q.comp_bass);
    law_bass_round_trip(s.bass, p.bass, q.bass);
    assert(q.pad_pan@ =~= p.pad_pan@);
    assert(q.pad_send@ =~= p.pad_send@);
    assert(q.pad_level@ =~= p.pad_level@);
    assert(q.pad_tune@ =~= p.pad_tune@);
    assert(q.pad_decay@ =~= p.pad_decay@);
    assert(q.pad_mute@ =~= p.pad_mute@);
}

impl SharedParams {
    /// Publishes one step into the mirror. Called by the audio side; an index
    /// outside the pattern changes nothing.
    pub fn publish_step(&mut self, index: usize, step: &Step)
        ensures
            *final(self) == (SharedParams { pattern: final(self).pattern, ..*old(self) }),
            final(self).pattern@ == (if index < MAX_STEPS {
                old(self).pattern@.update(index as int, packed_step(*step) as u32)
            } else {
                old(self).pattern@
            }),
    {
        proof {
            law_step_round_trip(*step);
        }
        if index < MAX_STEPS {
            self.pattern[index] = pack_step(step);
        }
    }

    /// Records how many steps the mirror now holds.
    pub fn publish_len(&mut self, len: usize)
        ensures
            *final(self) == (SharedParams { pattern_len: (len as int % 0x1_0000_0000) as u32, ..*old(self) }),
    {
        self.pattern_len = low_word(len);
    }

    /// Reads one step back out of the mirror.
    pub fn read_step(&self, index: usize) -> (step: Step)
        ensures
            step == (if index < MAX_STEPS {
                unpacked_step(self.pattern[index as int])
            } else {
                Step::blank()
            }),
    {
        if index >= MAX_STEPS {
            return Step::default();
        }
        unpack_step(self.pattern[index])
    }

    /// Reads the whole pattern, as far as the published length.
    pub fn read_pattern(&self) -> (p: Pattern)
        ensures
            p.wf(),
            p.len == counted(self.pattern_len as int, 1, MAX_STEPS as int),
            forall|i: int| 0 <= i < MAX_STEPS ==> #[trigger] p.steps[i] == unpacked_step(self.pattern[i]),
    {
        let len: usize = count(self.pattern_len, 1, MAX_STEPS as u32) as usize;
        Pattern::new(unpack_all(&self.pattern), len)
    }

    /// Publishes one step of the bass line.
    pub fn publish_bass_step(&mut self, index: usize, step: &Step)
        ensures
            *final(self) == (SharedParams { bass_pattern: final(self).bass_pattern, ..*old(self) }),
            final(self).bass_pattern@ == (if index < MAX_STEPS {
                old(self).bass_pattern@.update(index as int, packed_step(*step) as u32)
            } else {
                old(self).bass_pattern@
            }),
    {
        proof {
            law_step_round_trip(*step);
        }
        if index < MAX_STEPS {
            self.bass_pattern[index] = pack_step(step);
        }
    }

    /// Records how many steps the bass mirror now holds.
    pub fn publish_bass_len(&mut self, len: usize)
        ensures
            *final(self) == (SharedParams { bass_pattern_len: (len as int % 0x1_0000_0000) as u32, ..*old(self) }),
    {
        self.bass_pattern_len = low_word(len);
    }

    /// Reads one step of the bass line back.
    pub fn read_bass_step(&self, index: usize) -> (step: Step)
        ensures
            step == (if index < MAX_STEPS {
                unpacked_step(self.bass_pattern[index as int])
            } else {
                Step::blank()
            }),
    {
        if index >= MAX_STEPS {
            return Step::default();
        }
        unpack_step(self.bass_pattern[index])
    }

    /// Reads the whole bass line, as far as the published length.
    pub fn read_bass_pattern(&self) -> (p: Pattern)
        ensures
            p.wf(),
            p.len == counted(self.bass_pattern_len as int, 1, MAX_STEPS as int),
            forall|i: int| 0 <= i < MAX_STEPS ==> #[trigger] p.steps[i] == unpacked_step(self.bass_pattern[i]),
    {
        let len: usize = count(self.bass_pattern_len, 1, MAX_STEPS as u32) as usize;
        Pattern::new(unpack_all(&self.bass_pattern), len)
    }

    /// Publishes one column of the grid. Called by the audio side.
    pub fn publish_drum_column(&mut self, index: usize, column: &Column)
        ensures
            *final(self) == (SharedParams { drum_grid: final(self).drum_grid, ..*old(self) }),
            final(self).drum_grid@ == (if index < MAX_STEPS {
                old(self).drum_grid@.update(index as int, pattern::packed(column@) as u32)
            } else {
                old(self).drum_grid@
            }),
    {
        if index < MAX_STEPS {
            self.drum_grid[index] = pack_column(column);
        }
    }

    /// Records how many columns the mirror now holds.
    pub fn publish_drum_len(&mut self, len: usize)
        ensures
            *final(self) == (SharedParams {
                drum_grid_len: (len as int % 0x1_0000_0000) as u32,
                ..*old(self)
            }),
    {
        self.drum_grid_len = low_word(len);
    }

    /// Reads one column back out of the mirror.
    pub fn read_drum_column(&self, index: usize) -> (column: Column)
        ensures
            forall|k: int|
                0 <= k < 8 ==> #[trigger] column[k] == (if index < MAX_STEPS {
                    pattern::nibble_cell(
                        pattern::digit(self.drum_grid[index as int] as int, k as nat),
                    )
                } else {
                    Cell::blank()
                }),
    {
        if index >= MAX_STEPS {
            return [Cell::default(); PAD_COUNT];
        }
        unpack_column(self.drum_grid[index])
    }

    /// Reads the whole grid, as far as the published length.
    pub fn read_drum_grid(&self) -> (g: DrumPattern)
        ensures
            g.wf(),
            g.len == counted(self.drum_grid_len as int, 1, MAX_STEPS as int),
            forall|i: int, k: int|
                0 <= i < MAX_STEPS && 0 <= k < 8 ==> #[trigger] g.columns[i][k]
                    == pattern::nibble_cell(pattern::digit(self.drum_grid[i] as int, k as nat)),
    {
        let len: usize = count(self.drum_grid_len, 1, MAX_STEPS as u32) as usize;
        let blank: Column = [Cell::default(); PAD_COUNT];
        let mut columns: [Column; MAX_STEPS] = [blank; MAX_STEPS];
        let mut i: usize = 0;
        while i < MAX_STEPS
            invariant
                i <= 64,
                forall|j: int, k: int|
                    0 <= j < i && 0 <= k < 8 ==> #[trigger] columns[j][k] == pattern::nibble_cell(
                        pattern::digit(self.drum_grid[j] as int, k as nat),
                    ),
            decreases 64 - i,
        {
            columns[i] = self.read_drum_column(i);
            i = i + 1;
        }
        DrumPattern::new(columns, len)
    }

    /// Stages a pattern for the sequencer to adopt, and asks for it.
    ///
    /// The request counter goes last. Until it moves the audio side has no
    /// reason to look at the array, so a half-written pattern is never one it
    /// could adopt.
    pub fn queue_pattern(&mut self, pattern: &Pattern)
        requires
            pattern.wf(),
        ensures
            *final(self) == (SharedParams {
                pending_pattern: final(self).pending_pattern,
                pending_length: pattern.len as u32,
                pending_request: old(self).pending_request.wrapping_add(1),
                ..*old(self)
            }),
            forall|i: int|
                0 <= i < MAX_STEPS ==> #[trigger] final(self).pending_pattern[i] == (if i
                    < pattern.len {
                    packed_step(pattern.steps[i]) as u32
                } else {
                    old(self).pending_pattern[i]
                }),
    {
        let mut i: usize = 0;
        while i < pattern.len
            invariant
                pattern.wf(),
                i <= pattern.len,
                *self == (SharedParams { pending_pattern: self.pending_pattern, ..*old(self) }),
                forall|k: int|
                    0 <= k < MAX_STEPS ==> #[trigger] self.pending_pattern[k] == (if k < i {
                        packed_step(pattern.steps[k]) as u32
                    } else {
                        old(self).pending_pattern[k]
                    }),
            decreases pattern.len - i,
        {
            proof {
                law_step_round_trip(pattern.steps[i as int]);
            }
            self.pending_pattern[i] = pack_step(&pattern.steps[i]);
            i = i + 1;
        }
        self.pending_length = pattern.len as u32;
        self.pending_request = self.pending_request.wrapping_add(1);
    }

    /// Reads the staged pattern back. Called by the audio side once it sees the
    /// request counter move.
    pub fn read_pending_pattern(&self) -> (p: Pattern)
        ensures
            p.wf(),
            p.len == counted(self.pending_length as int, 1, MAX_STEPS as int),
            forall|i: int|
                0 <= i < MAX_STEPS ==> #[trigger] p.steps[i] == unpacked_step(
                    self.pending_pattern[i],
                ),
    {
        let len: usize = count(self.pending_length, 1, MAX_STEPS as u32) as usize;
        Pattern::new(unpack_all(&self.pending_pattern), len)
    }

    /// Asks the sequencer for a new generated pattern at the next boundary.
    pub fn regenerate(&mut self)
        ensures
            *final(self) == (SharedParams {
                gen_regenerate: old(self).gen_regenerate.wrapping_add(1),
                ..*old(self)
            }),
    {
        self.gen_regenerate = self.gen_regenerate.wrapping_add(1);
    }

    /// Reads the output peak meter and resets it, so each read reports the peak
    /// since the previous one rather than since startup.
    pub fn take_peak(&mut self) -> (peak: Single)
        ensures
            peak == old(self).output_peak@,
            *final(self) == (SharedParams { output_peak: AtomicF32 { word: 0 }, ..*old(self) }),
    {
        let peak: Single = self.output_peak.get();
        self.output_peak.set(of(0));
        peak
    }
}

fn unpack_all(words: &[u32; MAX_STEPS]) -> (steps: [Step; MAX_STEPS])
    ensures
        forall|i: int| 0 <= i < MAX_STEPS ==> #[trigger] steps[i] == unpacked_step(words[i]),
{
    let mut steps: [Step; MAX_STEPS] = [Step::default(); MAX_STEPS];
    let mut i: usize = 0;
    while i < MAX_STEPS
        invariant
            i <= 64,
            forall|k: int| 0 <= k < i ==> #[trigger] steps[k] == unpacked_step(words[k]),
        decreases 64 - i,
    {
        steps[i] = unpack_step(words[i]);
        i = i + 1;
    }
    steps
}

/// A staged pattern is read back as it was staged: its length, and every step
/// up to what a word keeps of it, the velocities to within a 255th.
pub proof fn law_staged_pattern_round_trip(s: SharedParams, p: Pattern, back: Pattern)
    requires
        p.wf(),
        p.len >= 1,
        s.pending_length == p.len,
        forall|i: int|
            0 <= i < p.len ==> #[trigger] s.pending_pattern[i] == packed_step(p.steps[i]) as u32,
        back.len == counted(s.pending_length as int, 1, MAX_STEPS as int),
        forall|i: int|
            0 <= i < MAX_STEPS ==> #[trigger] back.steps[i] == unpacked_step(s.pending_pattern[i]),
    ensures
        back.len == p.len,
        forall|i: int|
            0 <= i < p.len ==> {
                &&& (#[trigger] back.steps[i]).active == p.steps[i].active
                &&& back.steps[i].note == p.steps[i].note
                &&& back.steps[i].accent == p.steps[i].accent
                &&& back.steps[i].slide == p.steps[i].slide
                &&& velocity_byte(back.steps[i].velocity) == velocity_byte(p.steps[i].velocity)
                &&& bounds::in_unit(p.steps[i].velocity) ==> bounds::within_a_255th(
                    back.steps[i].velocity,
                    p.steps[i].velocity,
                )
            },
{
    assert forall|i: int| 0 <= i < p.len implies {
        &&& (#[trigger] back.steps[i]).active == p.steps[i].active
        &&& back.steps[i].note == p.steps[i].note
        &&& back.steps[i].accent == p.steps[i].accent
        &&& back.steps[i].slide == p.steps[i].slide
        &&& velocity_byte(back.steps[i].velocity) == velocity_byte(p.steps[i].velocity)
        &&& bounds::in_unit(p.steps[i].velocity) ==> bounds::within_a_255th(
            back.steps[i].velocity,
            p.steps[i].velocity,
        )
    } by {
        let step = p.steps[i];
        law_step_round_trip(step);
        let n = velocity_byte(step.velocity) as u8;
        single::lemma_ratio_at_most_one(n as nat, 255);
        single::law_byte_survives_unit_scaling(n);
        reveal(held);
        assert(unit(back.steps[i].velocity) == back.steps[i].velocity);
    }
}

/// A step published at a place of the mirror is what the mirror then shows there, its
/// velocity to within a 255th, and every other place shows what it showed.
pub proof fn law_a_published_step_is_read_back(
    before: Seq<u32>,
    index: int,
    step: Step,
    other: int,
)
    requires
        before.len() == MAX_STEPS,
        0 <= index < MAX_STEPS,
        0 <= other < MAX_STEPS,
    ensures
        ({
            let after = before.update(index, packed_step(step) as u32);
            let back = unpacked_step(after[index]);
            &&& back.active == step.active
            &&& back.note == step.note
            &&& back.accent == step.accent
            &&& back.slide == step.slide
            &&& bounds::in_unit(step.velocity) ==> bounds::within_a_255th(
                back.velocity,
                step.velocity,
            )
            &&& other != index ==> unpacked_step(after[other]) == unpacked_step(before[other])
        }),
{
    law_step_round_trip(step);
}

} // verus!
