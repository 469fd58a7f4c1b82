//! Raw MIDI messages and recorded notes.

use vstd::prelude::*;

verus! {

/// Status byte that the on-device keyboard sends for a key press.
pub const NOTE_ON: u8 = 0x9c;

/// Status byte that the on-device keyboard sends for a key release.
pub const NOTE_OFF: u8 = 0x8c;

/// A raw three-byte MIDI message.
#[derive(Clone, Copy, Debug, PartialEq, Eq, Structural)]
pub struct MidiMessage {
    pub first: u8,
    pub second: u8,
    pub third: u8,
}

/// What a status byte asks for, whatever its channel.
#[derive(Clone, Copy, Debug, PartialEq, Eq, Structural)]
pub enum MidiKind {
    NoteOn,
    NoteOff,
    Other,
}

/// A recorded note: where it starts and ends on the loop, and when it was
/// recorded.  `tick_off` is -1 as long as the key is still held.
#[derive(Clone, Copy, Debug, PartialEq, Eq, Structural)]
pub struct NoteEvent {
    pub note_id: u8,
    pub tick_on: i32,
    pub tick_off: i32,
    pub record_session: i32,
    pub stamp_record: i32,
}

/// The kind of a status byte: its high nibble is 9 for note-on, 8 for
/// note-off.
pub open spec fn kind_of(status: u8) -> MidiKind {
    if 0x90 <= status <= 0x9f {
        MidiKind::NoteOn
    } else if 0x80 <= status <= 0x8f {
        MidiKind::NoteOff
    } else {
        MidiKind::Other
    }
}

impl MidiMessage {
    /// The kind of the message, by its status byte.
    pub open spec fn spec_kind(&self) -> MidiKind {
        kind_of(self.first)
    }

    /// Tells note-on from note-off by the high nibble of the status byte.
    #[verifier::when_used_as_spec(spec_kind)]
    pub fn kind(&self) -> (k: MidiKind)
        ensures
            k == kind_of(self.first),
    {
        let status = self.first;
        let high: u8 = status & 0xf0;
        assert(high == 0x90 <==> 0x90 <= status <= 0x9f) by (bit_vector)
            requires
                high == status & 0xf0,
        ;
        assert(high == 0x80 <==> 0x80 <= status <= 0x8f) by (bit_vector)
            requires
                high == status & 0xf0,
        ;
        if high == 0x90 {
            MidiKind::NoteOn
        } else if high == 0x80 {
            MidiKind::NoteOff
        } else {
            MidiKind::Other
        }
    }

    /// The input boundary: a message passes when it has at least three bytes
    /// and its status is a note-on or a note-off; anything else is dropped.
    pub fn from_bytes(message: &[u8]) -> (m: Option<MidiMessage>)
        ensures
            m.is_some() <==> message@.len() >= 3 && kind_of(message@[0]) != MidiKind::Other,
            m.is_some() ==> m.unwrap() == (MidiMessage {
                first: message@[0],
                second: message@[1],
                third: message@[2],
            }),
    {
        if message.len() < 3 {
            return None;
        }
        let m = MidiMessage { first: message[0], second: message[1], third: message[2] };
        match m.kind() {
            MidiKind::Other => None,
            _ => Some(m),
        }
    }
}

} // verus!
