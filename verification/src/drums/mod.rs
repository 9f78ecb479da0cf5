//! The drum rack: eight percussion pads and a grid to fire them.

pub mod kit;
pub mod pattern;
pub mod pad;
pub mod rack;
pub mod sequencer;
pub mod voice;
