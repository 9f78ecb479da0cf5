//! A software synthesizer: scales and patterns, the sequencers, the clock, voice
//! allocation, the voices, the bass, the drums, the mixer and the effects, the parameter
//! block, the event queue, and everything a panel decides before it draws.
//!
//! Samples are IEEE single-precision numbers, computed exactly on their bit patterns. The
//! few functions that are not arithmetic come in as curves.

pub mod arith;
pub mod band;
pub mod bass;
pub mod bounds;
pub mod clock;
pub mod compressor;
pub mod control;
pub mod curve;
pub mod delay;
pub mod demo;
pub mod desk_laws;
pub mod display;
pub mod double;
pub mod drums;
pub mod echo_laws;
pub mod engine;
pub mod engine_laws;
pub mod env;
pub mod event;
pub mod exact;
pub mod filter;
pub mod fx;
pub mod host;
pub mod keyboard;
pub mod lfo;
pub mod line;
pub mod midi;
pub mod mixer;
pub mod note;
pub mod order;
pub mod osc;
pub mod output;
pub mod pace_laws;
pub mod panel_laws;
pub mod params;
pub mod piano;
pub mod pool;
pub mod presets;
pub mod reverb;
pub mod rng;
pub mod rounding;
pub mod scale;
pub mod sequencer;
pub mod single;
pub mod smooth;
pub mod sound_laws;
pub mod studio;
pub mod text;
pub mod timing_laws;
pub mod tone;
pub mod ui;
pub mod voice;
pub mod wav;

pub use rng::Rng;
pub use scale::{Scale, ScaleQuantizer};
pub use single::Single;
