//! A looping MIDI note sequencer with a network control channel.
//!
//! The crate holds the real-time core: the pattern store and playback
//! cursor, the bounded control bridge that carries commands from network
//! threads to the processing cycle, the per-cycle sequencer state machine,
//! and the wire codec for the command and status message families.
//!
//! Musical time is modelled as integer micro-beats (see
//! [`pattern::MICROBEATS_PER_BEAT`]), so every timing computation here is
//! exact; the host adapter converts at the boundary.

pub mod bridge;
pub mod client;
pub mod codec;
pub mod engine;
pub mod laws;
pub mod pattern;
pub mod text;
