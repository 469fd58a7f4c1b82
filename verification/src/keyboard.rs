//! The on-device keyboard: what each key does.

use vstd::prelude::*;
use crate::midimessage::{MidiMessage, NOTE_OFF, NOTE_ON};
use crate::sequencer_data::Message;

verus! {

/// The keys that the sequencer listens to.  The twelve note keys come
/// first, in the order of their notes.
#[derive(Clone, Copy, Debug, PartialEq, Eq, Structural)]
pub enum Key {
    A,
    Z,
    E,
    R,
    T,
    Y,
    U,
    I,
    O,
    P,
    Q,
    S,
    Space,
    Up,
    Down,
    Left,
    Right,
    W,
    X,
    C,
    V,
    B,
    N,
    Backspace,
    Escape,
    Other,
}

/// What a key event leads to.
#[derive(Clone, Debug)]
pub enum UiAction<F> {
    /// Leave the program.
    Quit,
    /// Send a control message to every side.
    Broadcast(Message<F>),
    /// Queue a MIDI message for the audio side.
    Midi(MidiMessage),
    /// Raise or lower the tempo by one beat per minute.
    TempoStep { faster: bool },
    Nothing,
}

/// Velocity of every note played on the keyboard.
pub const KEY_VELOCITY: u8 = 127;

/// Highest note number.
pub const MAX_NOTE: u8 = 127;

/// Position of a note key among the note keys.
pub open spec fn note_index(key: Key) -> Option<int> {
    match key {
        Key::A => Some(0),
        Key::Z => Some(1),
        Key::E => Some(2),
        Key::R => Some(3),
        Key::T => Some(4),
        Key::Y => Some(5),
        Key::U => Some(6),
        Key::I => Some(7),
        Key::O => Some(8),
        Key::P => Some(9),
        Key::Q => Some(10),
        Key::S => Some(11),
        _ => None,
    }
}

/// The note of a key on a keyboard whose first note key plays `base`: the
/// note keys go up by semitones from there, as far as notes exist.
pub open spec fn note_of(key: Key, base: u8) -> Option<u8> {
    match note_index(key) {
        Some(i) => if base + i <= MAX_NOTE {
            Some((base + i) as u8)
        } else {
            None
        },
        None => None,
    }
}

/// What pressing a key leads to.
pub open spec fn pressed<F>(key: Key, base: u8) -> UiAction<F> {
    if key == Key::Escape {
        UiAction::Quit
    } else if key == Key::Space {
        UiAction::Broadcast(Message::PlayStop)
    } else {
        match note_of(key, base) {
            Some(note) => UiAction::Midi(
                MidiMessage { first: NOTE_ON, second: note, third: KEY_VELOCITY },
            ),
            None => UiAction::Nothing,
        }
    }
}

/// What releasing a key leads to, given the transport flags that the
/// display shows.
pub open spec fn released<F>(
    key: Key,
    base: u8,
    is_recording: bool,
    metronome_active: bool,
) -> UiAction<F> {
    match key {
        Key::Escape => UiAction::Quit,
        Key::Backspace => UiAction::Broadcast(Message::UndoLastSession),
        Key::Up => UiAction::Broadcast(Message::NextInstrument),
        Key::Down => UiAction::Broadcast(Message::PreviousInstrument),
        Key::Left => UiAction::Broadcast(Message::PreviousPreset),
        Key::Right => UiAction::Broadcast(Message::NextPreset),
        Key::W => UiAction::Broadcast(Message::SetIsRecording(!is_recording)),
        Key::X => UiAction::Broadcast(Message::SetMetronomeActive(!metronome_active)),
        Key::C => UiAction::Broadcast(Message::PreviousQuantize),
        Key::V => UiAction::Broadcast(Message::NextQuantize),
        Key::B => UiAction::TempoStep { faster: false },
        Key::N => UiAction::TempoStep { faster: true },
        _ => match note_of(key, base) {
            Some(note) => UiAction::Midi(
                MidiMessage { first: NOTE_OFF, second: note, third: KEY_VELOCITY },
            ),
            None => UiAction::Nothing,
        },
    }
}

/// The note that a key plays, if it is a note key.
pub fn key_note(key: Key, base: u8) -> (note: Option<u8>)
    ensures
        note == note_of(key, base),
{
    let index: u8 = match key {
        Key::A => 0,
        Key::Z => 1,
        Key::E => 2,
        Key::R => 3,
        Key::T => 4,
        Key::Y => 5,
        Key::U => 6,
        Key::I => 7,
        Key::O => 8,
        Key::P => 9,
        Key::Q => 10,
        Key::S => 11,
        _ => {
            return None;
        },
    };
    if base <= MAX_NOTE - index {
        Some(base + index)
    } else {
        None
    }
}

/// A key went down.
pub fn key_down<F>(key: Key, base: u8) -> (action: UiAction<F>)
    ensures
        action == pressed::<F>(key, base),
{
    match key {
        Key::Escape => UiAction::Quit,
        Key::Space => UiAction::Broadcast(Message::PlayStop),
        _ => match key_note(key, base) {
            Some(note) => UiAction::Midi(
                MidiMessage { first: NOTE_ON, second: note, third: KEY_VELOCITY },
            ),
            None => UiAction::Nothing,
        },
    }
}

/// A key came up.
pub fn key_up<F>(key: Key, base: u8, is_recording: bool, metronome_active: bool) -> (action:
    UiAction<F>)
    ensures
        action == released::<F>(key, base, is_recording, metronome_active),
{
    match key {
        Key::Escape => UiAction::Quit,
        Key::Backspace => UiAction::Broadcast(Message::UndoLastSession),
        Key::Up => UiAction::Broadcast(Message::NextInstrument),
        Key::Down => UiAction::Broadcast(Message::PreviousInstrument),
        Key::Left => UiAction::Broadcast(Message::PreviousPreset),
        Key::Right => UiAction::Broadcast(Message::NextPreset),
        Key::W => UiAction::Broadcast(Message::SetIsRecording(!is_recording)),
        Key::X => UiAction::Broadcast(Message::SetMetronomeActive(!metronome_active)),
        Key::C => UiAction::Broadcast(Message::PreviousQuantize),
        Key::V => UiAction::Broadcast(Message::NextQuantize),
        Key::B => UiAction::TempoStep { faster: false },
        Key::N => UiAction::TempoStep { faster: true },
        _ => match key_note(key, base) {
            Some(note) => UiAction::Midi(
                MidiMessage { first: NOTE_OFF, second: note, third: KEY_VELOCITY },
            ),
            None => UiAction::Nothing,
        },
    }
}

} // verus!
