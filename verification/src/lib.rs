//! Control plane of a loop sequencer: the tick clock, the transport state,
//! the recording and quantization of notes, and the bounded queues and voice
//! pools that the audio side relies on.
//!
//! Nothing here computes with samples.  Levels, tempo and audio data pass
//! through as values of a type parameter; what has to be added, scaled or
//! filtered is said in integers (which stretch of which buffer, which voice,
//! which note) and left to the caller.

use vstd::prelude::*;

pub mod engine;
pub mod epiano;
pub mod fifoqueue;
pub mod keyboard;
pub mod menu;
pub mod metronome;
pub mod midimessage;
pub mod note_events;
pub mod preset;
pub mod reverb;
pub mod sampler;
pub mod sequencer_data;
pub mod voice_pool;

pub use crate::engine::Sequencer;
use crate::midimessage::MidiMessage;

verus! {

/// What the audio callback takes from its input queue.
#[derive(Clone, Copy, Debug, PartialEq, Eq, Structural)]
pub enum Message {
    Midi(MidiMessage),
}

} // verus!
