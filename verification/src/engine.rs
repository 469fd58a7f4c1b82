//! The sequencer engine: what the audio callback decides.
//!
//! The engine advances the clock, records what is played, and says which
//! notes the sound generators have to start and stop.  It never touches a
//! sample: the caller counts the ticks that have elapsed, carries out the
//! [`VoiceCommand`]s, mixes, and sends on what
//! [`Sequencer::synchronise_data`] hands it.

use vstd::prelude::*;
use vstd::arithmetic::div_mod::{
    lemma_fundamental_div_mod,
    lemma_fundamental_div_mod_converse,
    lemma_fundamental_div_mod_converse_mod,
};
use crate::metronome::{Metronome, MetronomeVoice, MAX_NOTES};
use crate::midimessage::{MidiKind, MidiMessage, NoteEvent};
use crate::note_events::{
    all_valid,
    close_note,
    highest_session,
    insert_by_start,
    is_sorted_by_start,
    lemma_closed_valid,
    lemma_insert_by_start,
    lemma_sorted_is_fixed,
    lemma_sorted_valid,
    lemma_without_last_session,
    lemma_without_last_session_valid,
    remove_last_session,
    sort_by_tick_on,
    sorted_by_start,
    with_note_closed,
    without_last_session,
};
use crate::sequencer_data::{
    keeps_tick_in_range,
    lemma_quantize_range,
    lemma_run_keeps,
    lemma_run_session,
    messages_view,
    DataView,
    InstrumentData,
    Message,
    MessageView,
    SequencerData,
};

verus! {

/// An order to the sound generator of one instrument.
#[derive(Clone, Copy, Debug, PartialEq, Eq, Structural)]
pub enum VoiceCommand {
    NoteOn { processor: usize, note_id: u8 },
    NoteOff { processor: usize, note_id: u8 },
    AllNoteOff { processor: usize },
    SetPreset { processor: usize, preset_id: usize },
}

/// What the engine keeps for one instrument: its recorded notes and the
/// preset its sound generator was last told to use.
pub struct Track {
    pub note_events: Vec<NoteEvent>,
    pub preset_id: usize,
}

/// Mathematical content of a [`Track`].
#[verifier::ext_equal]
pub struct TrackView {
    pub note_events: Seq<NoteEvent>,
    pub preset_id: int,
}

impl View for Track {
    type V = TrackView;

    open spec fn view(&self) -> TrackView {
        TrackView { note_events: self.note_events@, preset_id: self.preset_id as int }
    }
}

/// The views of a list of tracks.
pub open spec fn tracks_view(list: Seq<Track>) -> Seq<TrackView> {
    Seq::new(list.len(), |i: int| list[i]@)
}

/// The audio side of the sequencer.
pub struct Sequencer<F> {
    pub data: SequencerData<F>,
    pub metronome: Metronome,
    pub tracks: Vec<Track>,
    pub has_new_notes: bool,
    pub stamp: i32,
}

/// Mathematical content of a [`Sequencer`].
#[verifier::ext_equal]
pub struct EngineView<F> {
    pub data: DataView<F>,
    /// The metronome beeps that are sounding.
    pub beeps: Seq<MetronomeVoice>,
    pub tracks: Seq<TrackView>,
    pub has_new_notes: bool,
    pub stamp: int,
}

impl<F> View for Sequencer<F> {
    type V = EngineView<F>;

    open spec fn view(&self) -> EngineView<F> {
        EngineView {
            data: self.data@,
            beeps: self.metronome.pool.sounding@,
            tracks: tracks_view(self.tracks@),
            has_new_notes: self.has_new_notes,
            stamp: self.stamp as int,
        }
    }
}

/// The beeps after the metronome was asked for one more.
pub open spec fn bipped(beeps: Seq<MetronomeVoice>, start_bar: bool) -> Seq<MetronomeVoice> {
    if beeps.len() < MAX_NOTES - 1 {
        beeps.push(MetronomeVoice { active: true, buffer_index: 0, start_bar })
    } else {
        beeps
    }
}

/// Whether a recorded note takes part in playback.  A note that is still
/// held does not; nor does one of the current session that was recorded
/// less than half a loop ago, which is still sounding from the key press.
pub open spec fn is_played(e: NoteEvent, stamp: int, session: int, nb_ticks: int) -> bool {
    e.tick_off != -1 && (stamp - e.stamp_record >= nb_ticks / 2 || session != e.record_session)
}

/// What one recorded note asks for at `tick`.
pub open spec fn event_commands(
    e: NoteEvent,
    processor: usize,
    tick: int,
    stamp: int,
    session: int,
    nb_ticks: int,
) -> Seq<VoiceCommand> {
    if !is_played(e, stamp, session, nb_ticks) {
        Seq::empty()
    } else {
        (if e.tick_on == tick {
            seq![VoiceCommand::NoteOn { processor, note_id: e.note_id }]
        } else {
            Seq::empty()
        }) + (if e.tick_off == tick {
            seq![VoiceCommand::NoteOff { processor, note_id: e.note_id }]
        } else {
            Seq::empty()
        })
    }
}

/// What the recorded notes of one instrument ask for at `tick`, in the
/// order of the list.
pub open spec fn track_commands(
    events: Seq<NoteEvent>,
    processor: usize,
    tick: int,
    stamp: int,
    session: int,
    nb_ticks: int,
) -> Seq<VoiceCommand>
    decreases events.len(),
{
    if events.len() == 0 {
        Seq::empty()
    } else {
        track_commands(events.drop_last(), processor, tick, stamp, session, nb_ticks)
            + event_commands(events.last(), processor, tick, stamp, session, nb_ticks)
    }
}

/// What the recorded notes of all instruments ask for at `tick`,
/// instrument by instrument.
pub open spec fn due_commands(
    tracks: Seq<TrackView>,
    tick: int,
    stamp: int,
    session: int,
    nb_ticks: int,
) -> Seq<VoiceCommand>
    decreases tracks.len(),
{
    if tracks.len() == 0 {
        Seq::empty()
    } else {
        due_commands(tracks.drop_last(), tick, stamp, session, nb_ticks) + track_commands(
            tracks.last().note_events,
            (tracks.len() - 1) as usize,
            tick,
            stamp,
            session,
            nb_ticks,
        )
    }
}

impl<F> EngineView<F> {
    /// What the recorded notes ask for at the current tick.
    pub open spec fn commands_now(self) -> Seq<VoiceCommand> {
        due_commands(
            self.tracks,
            self.data.tick,
            self.stamp,
            self.data.record_session,
            self.data.nb_ticks(),
        )
    }

    /// Whether the clock stands on a quarter note.
    pub open spec fn on_beat(self) -> bool {
        self.data.tick % self.data.ticks_per_quarter_note == 0
    }

    /// Whether the clock stands on the first quarter note of a bar.
    pub open spec fn on_bar(self) -> bool {
        self.data.tick % (self.data.ticks_per_quarter_note * 4) == 0
    }

    /// The state after the metronome has looked at the current tick.
    pub open spec fn metronome_ticked(self) -> Self {
        if self.on_beat() && self.data.metronome_active {
            EngineView { beeps: bipped(self.beeps, self.on_bar()), ..self }
        } else {
            self
        }
    }

    /// Whether the next tick takes the clock back to the start of the loop.
    pub open spec fn at_loop_end(self) -> bool {
        self.data.tick + 1 >= self.data.nb_ticks()
    }

    /// The state one tick later.  The metronome is asked only as long as no
    /// beat was met since the flag `bpm_has_biped` was cleared; at the end
    /// of the loop the clock goes back to 0 and a new recording session
    /// begins.
    pub open spec fn tick_once(self) -> Self {
        let met = if self.data.bpm_has_biped {
            self
        } else {
            self.metronome_ticked()
        };
        EngineView {
            data: DataView {
                bpm_has_biped: self.data.bpm_has_biped || self.on_beat(),
                tick: if self.at_loop_end() {
                    0
                } else {
                    self.data.tick + 1
                },
                record_session: if self.at_loop_end() {
                    self.data.record_session + 1
                } else {
                    self.data.record_session
                },
                ..self.data
            },
            stamp: self.stamp + 1,
            ..met
        }
    }

    /// The state `n` ticks later.
    pub open spec fn advance(self, n: nat) -> Self
        decreases n,
    {
        if n == 0 {
            self
        } else {
            self.advance((n - 1) as nat).tick_once()
        }
    }

    /// What the recorded notes ask for during the next `n` ticks.
    pub open spec fn commands_during(self, n: nat) -> Seq<VoiceCommand>
        decreases n,
    {
        if n == 0 {
            Seq::empty()
        } else {
            self.commands_during((n - 1) as nat) + self.advance((n - 1) as nat).commands_now()
        }
    }

    /// The state with the beat flag cleared, as at the start of a clock
    /// update.
    pub open spec fn beat_cleared(self) -> Self {
        EngineView { data: DataView { bpm_has_biped: false, ..self.data }, ..self }
    }

    /// The selected instrument has a track.
    pub open spec fn has_selection(self) -> bool {
        0 <= self.data.instrument_selected_id < self.tracks.len()
    }

    /// What is played is recorded.
    pub open spec fn is_capturing(self) -> bool {
        self.data.is_recording && self.data.is_playing
    }

    /// The state with the notes of the selected track replaced.
    pub open spec fn with_selected_notes(self, notes: Seq<NoteEvent>) -> Self {
        let sel = self.data.instrument_selected_id;
        EngineView {
            tracks: self.tracks.update(sel, TrackView { note_events: notes, ..self.tracks[sel] }),
            ..self
        }
    }

    /// The note that a key press records now.
    pub open spec fn started_note(self, note_id: u8) -> NoteEvent {
        NoteEvent {
            note_id,
            tick_on: self.data.quantized_tick() as i32,
            tick_off: -1i32,
            record_session: self.data.record_session as i32,
            stamp_record: self.stamp as i32,
        }
    }

    /// The state after a key press: while capturing, the selected track
    /// gets a new pending note at the quantized tick, and stays ordered by
    /// start.
    pub open spec fn note_on(self, note_id: u8) -> Self {
        if self.has_selection() && self.is_capturing() {
            let notes = self.tracks[self.data.instrument_selected_id].note_events;
            EngineView {
                has_new_notes: true,
                ..self.with_selected_notes(sorted_by_start(notes.push(self.started_note(note_id))))
            }
        } else {
            self
        }
    }

    /// The state after a key release: while capturing, the note that was
    /// started last for this key on the selected track ends at the
    /// quantized tick.
    pub open spec fn note_off(self, note_id: u8) -> Self {
        if self.has_selection() && self.is_capturing() {
            let notes = self.tracks[self.data.instrument_selected_id].note_events;
            EngineView {
                has_new_notes: true,
                ..self.with_selected_notes(
                    with_note_closed(
                        notes,
                        note_id,
                        self.data.quantized_tick() as i32,
                        self.data.nb_ticks() as i32,
                    ),
                )
            }
        } else {
            self
        }
    }

    /// Whether an undo is asked for and can be done.
    pub open spec fn undoes(self) -> bool {
        self.data.undo_last_session && self.has_selection()
    }

    /// The state after the undo that was asked for, if any: the selected
    /// track loses the notes of its latest session and is due to be shown
    /// again, and the request is served.
    pub open spec fn undone(self) -> Self {
        let served = EngineView {
            data: DataView { undo_last_session: false, ..self.data },
            ..self
        };
        if self.undoes() {
            EngineView {
                has_new_notes: true,
                ..served.with_selected_notes(
                    without_last_session(self.tracks[self.data.instrument_selected_id].note_events),
                )
            }
        } else {
            served
        }
    }

    /// The order that goes with an undo: silence the selected instrument.
    pub open spec fn undo_commands(self) -> Seq<VoiceCommand> {
        if self.undoes() {
            seq![VoiceCommand::AllNoteOff { processor: self.data.instrument_selected_id as usize }]
        } else {
            Seq::empty()
        }
    }

    /// Whether track `i` has an instrument whose preset it does not use
    /// yet.
    pub open spec fn preset_differs(self, i: int) -> bool {
        0 <= i < self.tracks.len() && i < self.data.instruments.len() && self.tracks[i].preset_id
            != self.data.instruments[i].current_preset_id
    }

    /// The state with every track on the preset of its instrument.
    pub open spec fn presets_synced(self) -> Self {
        EngineView {
            tracks: Seq::new(
                self.tracks.len(),
                |i: int|
                    if i < self.data.instruments.len() {
                        TrackView {
                            preset_id: self.data.instruments[i].current_preset_id,
                            ..self.tracks[i]
                        }
                    } else {
                        self.tracks[i]
                    },
            ),
            ..self
        }
    }

    /// The orders that bring the first `k` sound generators to the preset
    /// of their instrument: one for each that is on another.
    pub open spec fn preset_commands(self, k: nat) -> Seq<VoiceCommand>
        decreases k,
    {
        if k == 0 {
            Seq::empty()
        } else {
            let i = k - 1;
            self.preset_commands(i as nat) + if self.preset_differs(i) {
                seq![
                    VoiceCommand::SetPreset {
                        processor: i as usize,
                        preset_id: self.data.instruments[i].current_preset_id as usize,
                    },
                ]
            } else {
                Seq::empty()
            }
        }
    }

    /// The state with the request to silence everything served.
    pub open spec fn killed(self) -> Self {
        EngineView { data: DataView { kill_all_notes: false, ..self.data }, ..self }
    }

    /// The orders that silence every instrument, if that was asked for.
    pub open spec fn kill_commands(self) -> Seq<VoiceCommand> {
        if self.data.kill_all_notes {
            Seq::new(self.tracks.len(), |i: int| VoiceCommand::AllNoteOff { processor: i as usize })
        } else {
            Seq::empty()
        }
    }

    /// The state with the control messages applied.
    pub open spec fn informed(self, msgs: Seq<MessageView<F>>) -> Self {
        EngineView { data: self.data.run(msgs), ..self }
    }

    /// The state with the clock advanced by `n` ticks if the transport is
    /// running.
    pub open spec fn clocked(self, n: nat) -> Self {
        if self.data.is_playing {
            self.beat_cleared().advance(n)
        } else {
            self
        }
    }

    /// What the recorded notes ask for while the clock advances.
    pub open spec fn clock_commands(self, n: nat) -> Seq<VoiceCommand> {
        if self.data.is_playing {
            self.beat_cleared().commands_during(n)
        } else {
            Seq::empty()
        }
    }

    /// The state after one callback that brings `msgs` and finds `n` ticks
    /// elapsed: messages, undo, presets, clock, silence, in this order.
    pub open spec fn processed(self, msgs: Seq<MessageView<F>>, n: nat) -> Self {
        self.informed(msgs).undone().presets_synced().clocked(n).killed()
    }

    /// The orders of that callback, in the order in which they are given.
    pub open spec fn process_commands(self, msgs: Seq<MessageView<F>>, n: nat) -> Seq<
        VoiceCommand,
    > {
        let s1 = self.informed(msgs);
        let s2 = s1.undone();
        let s3 = s2.presets_synced();
        let s4 = s3.clocked(n);
        s1.undo_commands() + s2.preset_commands(s2.tracks.len()) + s3.clock_commands(n)
            + s4.kill_commands()
    }

    /// Whether the notes of the selected track are due to be shown again.
    pub open spec fn notes_changed(self) -> bool {
        self.has_new_notes || self.data.undo_last_session
    }

    /// What the engine tells the display after a callback: the clock and a
    /// new beat while the transport runs, the notes of the selected track
    /// when they have changed, and the level of every instrument.
    pub open spec fn published(self, bpm_has_bipped: bool) -> Seq<MessageView<F>> {
        (if self.data.is_playing {
            seq![MessageView::SetTick(self.data.tick)] + (if !bpm_has_bipped
                && self.data.bpm_has_biped {
                seq![MessageView::SetBpmHasBiped(true)]
            } else {
                Seq::empty()
            })
        } else {
            Seq::empty()
        }) + (if self.notes_changed() && self.has_selection() {
            seq![
                MessageView::SetMidiMessagesInstrument(
                    self.tracks[self.data.instrument_selected_id].note_events,
                ),
            ]
        } else {
            Seq::empty()
        }) + Seq::new(
            self.data.instruments.len(),
            |i: int|
                MessageView::SetRMSInstrument(
                    i,
                    self.data.instruments[i].rms_left,
                    self.data.instruments[i].rms_right,
                ),
        )
    }

    /// The state after the display was told: nothing is left to show.
    pub open spec fn synchronised(self) -> Self {
        EngineView {
            has_new_notes: false,
            data: DataView { undo_last_session: false, ..self.data },
            ..self
        }
    }

    /// Every track holds only valid notes.
    pub open spec fn notes_valid(self) -> bool {
        forall|i: int|
            0 <= i < self.tracks.len() ==> all_valid(
                (#[trigger] self.tracks[i]).note_events,
                self.data.nb_ticks(),
            )
    }
}

/// Whether `n` divides `x`.
pub fn is_multiple(x: i32, n: i32) -> (b: bool)
    requires
        0 < n,
    ensures
        b == (x as int % n as int == 0),
{
    if x >= 0 {
        x % n == 0
    } else {
        let y: i64 = -(x as i64);
        let m: i64 = n as i64;
        proof {
            let (a, d, c) = (x as int, n as int, y as int);
            lemma_fundamental_div_mod(a, d);
            lemma_fundamental_div_mod(c, d);
            if c % d == 0 {
                assert(a == (-(c / d)) * d + 0) by (nonlinear_arith)
                    requires
                        c == d * (c / d),
                        a == -c,
                ;
                lemma_fundamental_div_mod_converse_mod(a, d, -(c / d), 0);
            }
            if a % d == 0 {
                assert(c == (-(a / d)) * d + 0) by (nonlinear_arith)
                    requires
                        a == d * (a / d),
                        a == -c,
                ;
                lemma_fundamental_div_mod_converse_mod(c, d, -(a / d), 0);
            }
        }
        y % m == 0
    }
}

impl<F> Sequencer<F> {
    /// The configuration is usable and the metronome is in order.
    pub open spec fn wf(&self) -> bool {
        self.data.wf() && self.metronome.wf()
    }

    /// Whether the engine is in order.
    pub fn is_wf(&self) -> (b: bool)
        ensures
            b == self.wf(),
    {
        self.data.is_wf() && self.metronome.is_wf()
    }

    /// An engine around the given state, with no instrument and a silent
    /// metronome for beeps of `beep_len` samples.
    pub fn new(data: SequencerData<F>, beep_len: usize) -> (sequencer: Sequencer<F>)
        ensures
            sequencer.data == data,
            sequencer.metronome.buffer_len == beep_len,
            sequencer@ == (EngineView {
                data: data@,
                beeps: Seq::empty(),
                tracks: Seq::empty(),
                has_new_notes: false,
                stamp: 0,
            }),
            data.wf() ==> sequencer.wf(),
    {
        let sequencer = Sequencer {
            data,
            metronome: Metronome::new(beep_len),
            tracks: Vec::new(),
            has_new_notes: false,
            stamp: 0,
        };
        assert(sequencer@.tracks =~= Seq::empty());
        assert(sequencer@.beeps =~= Seq::empty());
        sequencer
    }

    /// Adds an instrument: its entry for the display, and an empty track
    /// on the preset that the entry names.
    pub fn add_processor(&mut self, instrument: InstrumentData<F>)
        ensures
            final(self).metronome == old(self).metronome,
            final(self)@ == (EngineView {
                data: DataView {
                    instruments: old(self)@.data.instruments.push(instrument@),
                    ..old(self)@.data
                },
                tracks: old(self)@.tracks.push(
                    TrackView {
                        note_events: Seq::empty(),
                        preset_id: instrument.current_preset_id as int,
                    },
                ),
                ..old(self)@
            }),
    {
        let preset_id = instrument.current_preset_id;
        self.data.instruments.push(instrument);
        self.tracks.push(Track { note_events: Vec::new(), preset_id });
        assert(self@.data.instruments =~= old(self)@.data.instruments.push(instrument@));
        assert(self@.tracks =~= old(self)@.tracks.push(
            TrackView { note_events: Seq::empty(), preset_id: preset_id as int },
        ));
    }

    /// Where a note played now is stored.
    pub fn quantize_tick(&self) -> (t: i32)
        requires
            self.data.wf(),
            self.data@.can_quantize(),
            0 <= self.data.tick,
        ensures
            t == self.data@.quantized_tick(),
    {
        self.data.quantize_tick()
    }

    /// A key was pressed.  The note goes to the sound generator of the
    /// selected instrument, if there is one, and is recorded while the
    /// transport runs with recording on.
    pub fn note_on(&mut self, note_id: u8) -> (command: Option<VoiceCommand>)
        requires
            old(self)@.has_selection() && old(self)@.is_capturing() ==> old(self).data.wf() && old(
                self,
            )@.data.can_quantize() && 0 <= old(self).data.tick,
        ensures
            final(self)@ == old(self)@.note_on(note_id),
            final(self).metronome == old(self).metronome,
            command == if old(self)@.has_selection() {
                Some(
                    VoiceCommand::NoteOn {
                        processor: old(self).data.instrument_selected_id,
                        note_id,
                    },
                )
            } else {
                None
            },
            old(self)@.notes_valid() ==> final(self)@.notes_valid(),
    {
        let idx = self.data.instrument_selected_id;
        if idx < self.tracks.len() {
            if self.data.is_recording && self.data.is_playing {
                let quantize_tick = self.quantize_tick();
                self.tracks[idx].note_events.push(
                    NoteEvent {
                        tick_on: quantize_tick,
                        tick_off: -1,
                        note_id,
                        record_session: self.data.record_session,
                        stamp_record: self.stamp,
                    },
                );
                sort_by_tick_on(&mut self.tracks[idx].note_events);
                self.has_new_notes = true;
                proof {
                    assert(self@.tracks =~= old(self)@.note_on(note_id).tracks);
                    if old(self)@.notes_valid() {
                        lemma_note_on_valid(old(self)@, note_id);
                    }
                }
            }
            Some(VoiceCommand::NoteOn { processor: idx, note_id })
        } else {
            None
        }
    }

    /// A key was released.  The release goes to the sound generator of the
    /// selected instrument, if there is one, and ends the recorded note
    /// while the transport runs with recording on.
    pub fn note_off(&mut self, note_id: u8) -> (command: Option<VoiceCommand>)
        requires
            old(self)@.has_selection() && old(self)@.is_capturing() ==> old(self).data.wf() && old(
                self,
            )@.data.can_quantize() && 0 <= old(self).data.tick,
        ensures
            final(self)@ == old(self)@.note_off(note_id),
            final(self).metronome == old(self).metronome,
            command == if old(self)@.has_selection() {
                Some(
                    VoiceCommand::NoteOff {
                        processor: old(self).data.instrument_selected_id,
                        note_id,
                    },
                )
            } else {
                None
            },
            old(self)@.notes_valid() ==> final(self)@.notes_valid(),
    {
        let idx = self.data.instrument_selected_id;
        if idx < self.tracks.len() {
            if self.data.is_recording && self.data.is_playing {
                let quantize_tick = self.quantize_tick();
                let nb_ticks = self.data.nb_ticks();
                proof {
                    lemma_quantize_range(
                        self.data.tick as int,
                        self.data@.quantize_entry(),
                        self.data.ticks_per_quarter_note as int,
                        nb_ticks as int,
                    );
                }
                close_note(&mut self.tracks[idx].note_events, note_id, quantize_tick, nb_ticks);
                self.has_new_notes = true;
                proof {
                    assert(self@.tracks =~= old(self)@.note_off(note_id).tracks);
                    if old(self)@.notes_valid() {
                        lemma_note_off_valid(old(self)@, note_id);
                    }
                }
            }
            Some(VoiceCommand::NoteOff { processor: idx, note_id })
        } else {
            None
        }
    }

    /// Hands a MIDI message from the input queue to `note_on` or
    /// `note_off`, by its status byte.
    pub fn handle_midi(&mut self, midi: MidiMessage) -> (command: Option<VoiceCommand>)
        requires
            midi.kind() != MidiKind::Other && old(self)@.has_selection() && old(
                self,
            )@.is_capturing() ==> old(self).data.wf() && old(self)@.data.can_quantize() && 0
                <= old(self).data.tick,
        ensures
            final(self).metronome == old(self).metronome,
            midi.kind() == MidiKind::NoteOn ==> final(self)@ == old(self)@.note_on(midi.second),
            midi.kind() == MidiKind::NoteOff ==> final(self)@ == old(self)@.note_off(midi.second),
            midi.kind() == MidiKind::Other ==> final(self)@ == old(self)@ && command.is_none(),
            midi.kind() != MidiKind::Other ==> (command.is_some() <==> old(self)@.has_selection()),
            command matches Some(c) ==> c == match midi.kind() {
                MidiKind::NoteOn => VoiceCommand::NoteOn {
                    processor: old(self).data.instrument_selected_id,
                    note_id: midi.second,
                },
                _ => VoiceCommand::NoteOff {
                    processor: old(self).data.instrument_selected_id,
                    note_id: midi.second,
                },
            },
            old(self)@.notes_valid() ==> final(self)@.notes_valid(),
    {
        match midi.kind() {
            MidiKind::NoteOn => self.note_on(midi.second),
            MidiKind::NoteOff => self.note_off(midi.second),
            MidiKind::Other => None,
        }
    }

    /// The recording session in which a running clock that stands on the
    /// loop will be after `elapsed_ticks` more ticks: one further for each
    /// time it passes the end of the loop.
    pub fn session_after(&self, elapsed_ticks: usize) -> (session: i64)
        requires
            self.data.wf(),
            self@.data.tick_in_range(),
            elapsed_ticks <= i32::MAX,
        ensures
            session == self@.beat_cleared().advance(elapsed_ticks as nat).data.record_session,
            session == self.data.record_session + (self.data.tick + elapsed_ticks)
                / self@.data.nb_ticks(),
    {
        proof {
            lemma_advance_tick(self@.beat_cleared(), elapsed_ticks as nat);
        }
        let nb_ticks = self.data.nb_ticks();
        self.data.record_session as i64 + (self.data.tick as i64 + elapsed_ticks as i64)
            / nb_ticks as i64
    }

    /// Where the clock stands.
    pub fn get_tick(&self) -> (tick: i32)
        ensures
            tick == self.data.tick,
    {
        self.data.tick
    }

    /// Lets the metronome look at the current tick: on a quarter note it
    /// beeps, if it is switched on, with the beep for the start of a bar
    /// every fourth quarter note.  Says whether the tick is a quarter note.
    pub fn metronomome_tick(&mut self) -> (beat: bool)
        requires
            old(self).wf(),
        ensures
            final(self).wf(),
            beat == old(self)@.on_beat(),
            final(self)@ == old(self)@.metronome_ticked(),
            final(self).metronome.buffer_len == old(self).metronome.buffer_len,
    {
        let tpqn = self.data.ticks_per_quarter_note;
        proof {
            assert(tpqn * 4 <= self.data@.nb_ticks()) by (nonlinear_arith)
                requires
                    0 < self.data.bars,
                    0 < tpqn,
                    self.data@.nb_ticks() == self.data.bars * 4 * tpqn,
            ;
        }
        if is_multiple(self.data.tick, tpqn) {
            let start_bar = is_multiple(self.data.tick, tpqn * 4);
            if self.data.metronome_active {
                self.metronome.bip(start_bar);
            }
            return true;
        }
        false
    }

    /// The orders that the recorded notes give at the current tick: a
    /// note-on for each played note that starts here, a note-off for each
    /// that ends here.
    pub fn play_recorded_note_events(&self) -> (commands: Vec<VoiceCommand>)
        requires
            self.data.wf(),
        ensures
            commands@ == self@.commands_now(),
    {
        let nb_ticks = self.data.nb_ticks();
        let tick = self.data.tick;
        let session = self.data.record_session;
        let stamp = self.stamp;
        let ghost tracks = self@.tracks;
        let mut commands: Vec<VoiceCommand> = Vec::new();
        let mut i: usize = 0;
        proof {
            assert(tracks.take(0) =~= Seq::empty());
        }
        while i < self.tracks.len()
            invariant
                i <= self.tracks@.len(),
                4 <= nb_ticks,
                tracks == self@.tracks,
                tracks.len() == self.tracks@.len(),
                commands@ == due_commands(
                    tracks.take(i as int),
                    tick as int,
                    stamp as int,
                    session as int,
                    nb_ticks as int,
                ),
            decreases self.tracks@.len() - i,
        {
            let ghost events = self.tracks@[i as int].note_events@;
            let ghost done = commands@;
            let n = self.tracks[i].note_events.len();
            let mut k: usize = 0;
            proof {
                assert(events.take(0) =~= Seq::empty());
                assert(done + Seq::<VoiceCommand>::empty() =~= done);
            }
            while k < n
                invariant
                    i < self.tracks@.len(),
                    4 <= nb_ticks,
                    k <= n,
                    n == events.len(),
                    events == self.tracks@[i as int].note_events@,
                    commands@ == done + track_commands(
                        events.take(k as int),
                        i,
                        tick as int,
                        stamp as int,
                        session as int,
                        nb_ticks as int,
                    ),
                decreases n - k,
            {
                let note_event = self.tracks[i].note_events[k];
                proof {
                    assert(events.take(k + 1).drop_last() =~= events.take(k as int));
                    assert(events.take(k + 1).last() == note_event);
                }
                let ghost so_far = commands@;
                let record_recently = (stamp as i64 - note_event.stamp_record as i64) < (nb_ticks
                    / 2) as i64;
                if note_event.tick_off != -1 && (!record_recently || session
                    != note_event.record_session) {
                    if note_event.tick_on == tick {
                        commands.push(
                            VoiceCommand::NoteOn { processor: i, note_id: note_event.note_id },
                        );
                    }
                    if note_event.tick_off == tick {
                        commands.push(
                            VoiceCommand::NoteOff { processor: i, note_id: note_event.note_id },
                        );
                    }
                }
                proof {
                    assert(commands@ =~= so_far + event_commands(
                        note_event,
                        i,
                        tick as int,
                        stamp as int,
                        session as int,
                        nb_ticks as int,
                    ));
                    assert(commands@ =~= done + track_commands(
                        events.take(k + 1),
                        i,
                        tick as int,
                        stamp as int,
                        session as int,
                        nb_ticks as int,
                    ));
                }
                k += 1;
            }
            proof {
                assert(events.take(n as int) =~= events);
                assert(tracks.take(i + 1).drop_last() =~= tracks.take(i as int));
                assert(tracks.take(i + 1).last() == tracks[i as int]);
            }
            i += 1;
        }
        proof {
            assert(tracks.take(tracks.len() as int) =~= tracks);
        }
        commands
    }

    /// Advances the clock by the ticks that have elapsed since the last
    /// callback, and collects the orders that the recorded notes give on
    /// the way.  Each time the clock passes the end of the loop, a new
    /// recording session begins.
    pub fn update(&mut self, elapsed_ticks: usize) -> (commands: Vec<VoiceCommand>)
        requires
            old(self).wf(),
            old(self).stamp + elapsed_ticks <= i32::MAX,
            old(self)@.beat_cleared().advance(elapsed_ticks as nat).data.record_session
                <= i32::MAX,
        ensures
            final(self).wf(),
            final(self).metronome.buffer_len == old(self).metronome.buffer_len,
            final(self)@ == old(self)@.beat_cleared().advance(elapsed_ticks as nat),
            commands@ == old(self)@.beat_cleared().commands_during(elapsed_ticks as nat),
    {
        self.data.bpm_has_biped = false;
        let ghost start = self@;
        let mut commands: Vec<VoiceCommand> = Vec::new();
        let mut done: usize = 0;
        while done < elapsed_ticks
            invariant
                done <= elapsed_ticks,
                self.wf(),
                self.metronome.buffer_len == old(self).metronome.buffer_len,
                start == old(self)@.beat_cleared(),
                start.stamp + elapsed_ticks <= i32::MAX,
                start.advance(elapsed_ticks as nat).data.record_session <= i32::MAX,
                self@ == start.advance(done as nat),
                commands@ == start.commands_during(done as nat),
            decreases elapsed_ticks - done,
        {
            let ghost here = self@;
            proof {
                lemma_advance_stamp(start, done as nat);
                lemma_advance_sessions(start, (done + 1) as nat, elapsed_ticks as nat);
            }
            if !self.data.bpm_has_biped {
                let beat = self.metronomome_tick();
                self.data.bpm_has_biped = beat;
            }
            let mut due = self.play_recorded_note_events();
            assert(due@ == here.commands_now());
            commands.append(&mut due);
            let nb_ticks = self.data.nb_ticks();
            if self.data.tick >= nb_ticks - 1 {
                self.data.tick = 0;
                self.data.record_session += 1;
            } else {
                self.data.tick += 1;
            }
            self.stamp += 1;
            done += 1;
            assert(self@ =~= here.tick_once());
        }
        commands
    }
}

/// On a track that is ordered by start, a key press puts the new note
/// behind the notes that start at or before it and leaves every other note
/// where it is: the track stays ordered and gains that one note.
pub proof fn lemma_note_on_inserts<F>(s: EngineView<F>, note_id: u8)
    requires
        s.has_selection(),
        s.is_capturing(),
        is_sorted_by_start(s.tracks[s.data.instrument_selected_id].note_events),
    ensures
        ({
            let before = s.tracks[s.data.instrument_selected_id].note_events;
            let after = s.note_on(note_id).tracks[s.data.instrument_selected_id].note_events;
            &&& after == insert_by_start(before, s.started_note(note_id))
            &&& is_sorted_by_start(after)
            &&& after.len() == before.len() + 1
            &&& after.to_multiset() == before.to_multiset().insert(s.started_note(note_id))
        }),
{
    let before = s.tracks[s.data.instrument_selected_id].note_events;
    let e = s.started_note(note_id);
    assert(before.push(e).drop_last() =~= before);
    lemma_sorted_is_fixed(before);
    lemma_insert_by_start(before, e);
}

/// Recording a key press keeps the recorded notes valid: the new note
/// starts on the loop.
pub proof fn lemma_note_on_valid<F>(s: EngineView<F>, note_id: u8)
    requires
        s.notes_valid(),
        s.has_selection() && s.is_capturing() ==> s.data.wf() && s.data.can_quantize() && 0
            <= s.data.tick,
    ensures
        s.note_on(note_id).notes_valid(),
{
    if s.has_selection() && s.is_capturing() {
        let sel = s.data.instrument_selected_id;
        let notes = s.tracks[sel].note_events;
        let more = notes.push(s.started_note(note_id));
        let nb_ticks = s.data.nb_ticks();
        assert(nb_ticks >= 4) by (nonlinear_arith)
            requires
                0 < s.data.bars,
                0 < s.data.ticks_per_quarter_note,
                nb_ticks == s.data.bars * 4 * s.data.ticks_per_quarter_note,
        ;
        lemma_quantize_range(
            s.data.tick,
            s.data.quantize_entry(),
            s.data.ticks_per_quarter_note,
            nb_ticks,
        );
        assert(all_valid(notes, s.data.nb_ticks()));
        assert(all_valid(more, s.data.nb_ticks()));
        lemma_sorted_valid(more, s.data.nb_ticks());
        let out = s.note_on(note_id);
        assert forall|i: int| 0 <= i < out.tracks.len() implies all_valid(
            (#[trigger] out.tracks[i]).note_events,
            out.data.nb_ticks(),
        ) by {
            if i != sel {
                assert(out.tracks[i] == s.tracks[i]);
            }
        }
    }
}

/// Recording a key release keeps the recorded notes valid: the note that it
/// ends gets an end on the loop that differs from its start.
pub proof fn lemma_note_off_valid<F>(s: EngineView<F>, note_id: u8)
    requires
        s.notes_valid(),
        s.has_selection() && s.is_capturing() ==> s.data.wf() && s.data.can_quantize() && 0
            <= s.data.tick,
    ensures
        s.note_off(note_id).notes_valid(),
{
    if s.has_selection() && s.is_capturing() {
        let sel = s.data.instrument_selected_id;
        let notes = s.tracks[sel].note_events;
        let nb_ticks = s.data.nb_ticks();
        assert(nb_ticks >= 4) by (nonlinear_arith)
            requires
                0 < s.data.bars,
                0 < s.data.ticks_per_quarter_note,
                nb_ticks == s.data.bars * 4 * s.data.ticks_per_quarter_note,
        ;
        lemma_quantize_range(
            s.data.tick,
            s.data.quantize_entry(),
            s.data.ticks_per_quarter_note,
            nb_ticks,
        );
        assert(all_valid(notes, nb_ticks));
        lemma_closed_valid(notes, note_id, s.data.quantized_tick() as i32, nb_ticks as i32);
        let out = s.note_off(note_id);
        assert forall|i: int| 0 <= i < out.tracks.len() implies all_valid(
            (#[trigger] out.tracks[i]).note_events,
            out.data.nb_ticks(),
        ) by {
            if i != sel {
                assert(out.tracks[i] == s.tracks[i]);
            }
        }
    }
}

impl<F> Sequencer<F> {
    /// Serves an undo, if one was asked for: the selected track loses the
    /// notes of its latest session, and its instrument is silenced.
    fn undo(&mut self, commands: &mut Vec<VoiceCommand>)
        ensures
            final(self)@ == old(self)@.undone(),
            final(self).metronome == old(self).metronome,
            final(commands)@ == old(commands)@ + old(self)@.undo_commands(),
    {
        let idx = self.data.instrument_selected_id;
        if self.data.undo_last_session && idx < self.tracks.len() {
            remove_last_session(&mut self.tracks[idx].note_events);
            commands.push(VoiceCommand::AllNoteOff { processor: idx });
            self.has_new_notes = true;
        }
        self.data.undo_last_session = false;
        assert(self@.tracks =~= old(self)@.undone().tracks);
        assert(commands@ =~= old(commands)@ + old(self)@.undo_commands());
    }

    /// Brings every track to the preset of its instrument, with an order
    /// for each sound generator that was on another.
    fn sync_presets(&mut self, commands: &mut Vec<VoiceCommand>)
        ensures
            final(self)@ == old(self)@.presets_synced(),
            final(self).metronome == old(self).metronome,
            final(commands)@ == old(commands)@ + old(self)@.preset_commands(
                old(self)@.tracks.len(),
            ),
    {
        let n = self.tracks.len();
        let mut i: usize = 0;
        proof {
            assert(commands@ + Seq::<VoiceCommand>::empty() =~= commands@);
        }
        while i < n
            invariant
                i <= n,
                n == self.tracks@.len(),
                n == old(self).tracks@.len(),
                self.data == old(self).data,
                self.metronome == old(self).metronome,
                self.has_new_notes == old(self).has_new_notes,
                self.stamp == old(self).stamp,
                forall|k: int|
                    0 <= k < i ==> (#[trigger] self.tracks@[k])@ == old(
                        self,
                    )@.presets_synced().tracks[k],
                forall|k: int| i <= k < n ==> self.tracks@[k] == old(self).tracks@[k],
                commands@ == old(commands)@ + old(self)@.preset_commands(i as nat),
            decreases n - i,
        {
            if i < self.data.instruments.len() {
                let id = self.data.instruments[i].current_preset_id;
                if self.tracks[i].preset_id != id {
                    self.tracks[i].preset_id = id;
                    commands.push(VoiceCommand::SetPreset { processor: i, preset_id: id });
                }
            }
            proof {
                assert(commands@ =~= old(commands)@ + old(self)@.preset_commands((i + 1) as nat));
            }
            i += 1;
        }
        assert(self@.tracks =~= old(self)@.presets_synced().tracks);
    }

    /// Serves a request to silence everything, if there is one.
    fn kill_notes(&mut self, commands: &mut Vec<VoiceCommand>)
        ensures
            final(self)@ == old(self)@.killed(),
            final(self).metronome == old(self).metronome,
            final(commands)@ == old(commands)@ + old(self)@.kill_commands(),
    {
        if self.data.kill_all_notes {
            let n = self.tracks.len();
            let mut i: usize = 0;
            while i < n
                invariant
                    i <= n,
                    n == self.tracks@.len(),
                    commands@.len() == old(commands)@.len() + i,
                    forall|k: int|
                        0 <= k < old(commands)@.len() ==> commands@[k] == old(commands)@[k],
                    forall|j: int|
                        old(commands)@.len() <= j < old(commands)@.len() + i ==> commands@[j]
                            == (VoiceCommand::AllNoteOff {
                            processor: (j - old(commands)@.len()) as usize,
                        }),
                decreases n - i,
            {
                commands.push(VoiceCommand::AllNoteOff { processor: i });
                i += 1;
            }
            self.data.kill_all_notes = false;
        }
        assert(commands@ =~= old(commands)@ + old(self)@.kill_commands());
    }

    /// The part of the audio callback that decides.  Applies the control
    /// messages `msgs`; serves an undo; brings every sound generator to the
    /// preset of its instrument; advances the clock by `elapsed_ticks` if
    /// the transport runs, with a new recording session at each pass of
    /// the end of the loop; silences everything if that was asked for.
    ///
    /// Returns the orders for the sound generators, in that order, and
    /// whether a beat had been flagged before the clock moved.
    pub fn process(&mut self, msgs: Vec<Message<F>>, elapsed_ticks: usize) -> (out: (
        Vec<VoiceCommand>,
        bool,
    ))
        requires
            old(self).wf(),
            old(self).stamp + elapsed_ticks <= i32::MAX,
            old(self)@.processed(
                messages_view(msgs@),
                elapsed_ticks as nat,
            ).data.record_session <= i32::MAX,
        ensures
            final(self).wf(),
            final(self).metronome.buffer_len == old(self).metronome.buffer_len,
            final(self)@ == old(self)@.processed(messages_view(msgs@), elapsed_ticks as nat),
            out.0@ == old(self)@.process_commands(messages_view(msgs@), elapsed_ticks as nat),
            out.1 == old(self)@.informed(messages_view(msgs@)).data.bpm_has_biped,
            old(self)@.data.tick_in_range() && (forall|k: int|
                0 <= k < msgs@.len() ==> keeps_tick_in_range(
                    #[trigger] messages_view(msgs@)[k],
                    old(self)@.data.nb_ticks(),
                )) ==> final(self)@.data.tick_in_range(),
            old(self)@.notes_valid() ==> final(self)@.notes_valid(),
    {
        let ghost all = messages_view(msgs@);
        let ghost n = elapsed_ticks as nat;
        proof {
            lemma_run_keeps(self@.data, all);
            lemma_run_session(self@.data, all);
            lemma_processed_keeps(self@, all, n);
            lemma_advance_stamp(
                self@.informed(all).undone().presets_synced().beat_cleared(),
                n,
            );
        }
        self.data.process_messages(msgs);
        let mut commands: Vec<VoiceCommand> = Vec::new();
        self.undo(&mut commands);
        self.sync_presets(&mut commands);
        let bpm_has_bipped = self.data.bpm_has_biped;
        if self.data.is_playing {
            let mut due = self.update(elapsed_ticks);
            commands.append(&mut due);
        }
        proof {
            let s3 = old(self)@.informed(all).undone().presets_synced();
            assert(commands@ =~= old(self)@.informed(all).undo_commands() + old(self)@.informed(
                all,
            ).undone().preset_commands(old(self)@.tracks.len()) + s3.clock_commands(n));
        }
        self.kill_notes(&mut commands);
        (commands, bpm_has_bipped)
    }
}

impl<F: Copy> Sequencer<F> {
    /// What to tell the display after a callback; `bpm_has_bipped` is what
    /// `process` returned.  Afterwards nothing is left to show.
    pub fn synchronise_data(&mut self, bpm_has_bipped: bool) -> (msgs: Vec<Message<F>>)
        ensures
            messages_view(msgs@) == old(self)@.published(bpm_has_bipped),
            final(self)@ == if old(self)@.notes_changed() {
                old(self)@.synchronised()
            } else {
                old(self)@
            },
            final(self).metronome == old(self).metronome,
    {
        let mut msgs: Vec<Message<F>> = Vec::new();
        if self.data.is_playing {
            msgs.push(Message::SetTick(self.data.tick));
            if !bpm_has_bipped && self.data.bpm_has_biped {
                msgs.push(Message::SetBpmHasBiped(self.data.bpm_has_biped));
            }
        }
        if self.has_new_notes || self.data.undo_last_session {
            let idx = self.data.instrument_selected_id;
            if idx < self.tracks.len() {
                let note_events = self.tracks[idx].note_events.clone();
                msgs.push(Message::SetMidiMessagesInstrument(note_events));
            }
            self.has_new_notes = false;
            self.data.undo_last_session = false;
        }
        let ghost head = messages_view(msgs@);
        let n = self.data.instruments.len();
        let mut i: usize = 0;
        while i < n
            invariant
                i <= n,
                n == self.data.instruments@.len(),
                msgs@.len() == head.len() + i,
                forall|k: int| 0 <= k < head.len() ==> (#[trigger] msgs@[k])@ == head[k],
                forall|j: int|
                    head.len() <= j < head.len() + i ==> (#[trigger] msgs@[j])@
                        == MessageView::SetRMSInstrument(
                        j - head.len(),
                        self.data.instruments@[j - head.len()].rms_left,
                        self.data.instruments@[j - head.len()].rms_right,
                    ),
            decreases n - i,
        {
            let rms_left = self.data.instruments[i].rms_left;
            let rms_right = self.data.instruments[i].rms_right;
            msgs.push(Message::SetRMSInstrument(i, rms_left, rms_right));
            i += 1;
        }
        proof {
            assert(self@.data.instruments =~= old(self)@.data.instruments);
            assert(messages_view(msgs@) =~= old(self)@.published(bpm_has_bipped));
        }
        msgs
    }
}

/// The stamp counts the ticks; the clock changes nothing but itself, the
/// beat flag, the recording session and the metronome, and stays on the
/// loop.  No tick ends a session, and none begins more than one.
pub proof fn lemma_advance_stamp<F>(s: EngineView<F>, n: nat)
    ensures
        s.advance(n).stamp == s.stamp + n,
        s.advance(n).tracks == s.tracks,
        s.advance(n).has_new_notes == s.has_new_notes,
        s.advance(n).data == (DataView {
            tick: s.advance(n).data.tick,
            bpm_has_biped: s.advance(n).data.bpm_has_biped,
            record_session: s.advance(n).data.record_session,
            ..s.data
        }),
        s.data.record_session <= s.advance(n).data.record_session <= s.data.record_session + n,
        s.data.wf() && s.data.tick_in_range() ==> s.advance(n).data.tick_in_range(),
    decreases n,
{
    if n > 0 {
        lemma_advance_stamp(s, (n - 1) as nat);
    }
}

/// The recording session never goes back while the clock advances.
pub proof fn lemma_advance_sessions<F>(s: EngineView<F>, k: nat, n: nat)
    requires
        k <= n,
    ensures
        s.advance(k).data.record_session <= s.advance(n).data.record_session,
    decreases n,
{
    if k < n {
        lemma_advance_sessions(s, k, (n - 1) as nat);
    }
}

/// The clock goes round the loop: from a tick on the loop, `n` ticks lead
/// to the tick `n` further on, modulo the length of the loop, and begin a
/// new recording session each time they pass its end.
pub proof fn lemma_advance_tick<F>(s: EngineView<F>, n: nat)
    requires
        s.data.wf(),
        s.data.tick_in_range(),
    ensures
        s.advance(n).data.tick == (s.data.tick + n) % s.data.nb_ticks(),
        s.advance(n).data.record_session == s.data.record_session + (s.data.tick + n)
            / s.data.nb_ticks(),
    decreases n,
{
    let len = s.data.nb_ticks();
    if n > 0 {
        let before = (n - 1) as nat;
        lemma_advance_tick(s, before);
        lemma_advance_stamp(s, before);
        let x = s.data.tick + before;
        lemma_fundamental_div_mod(x, len);
        vstd::arithmetic::div_mod::lemma_mod_bound(x, len);
        let (q, r) = (x / len, x % len);
        if r + 1 < len {
            assert(x + 1 == q * len + (r + 1)) by (nonlinear_arith)
                requires
                    x == len * q + r,
            ;
            lemma_fundamental_div_mod_converse(x + 1, len, q, r + 1);
        } else {
            assert(x + 1 == (q + 1) * len + 0) by (nonlinear_arith)
                requires
                    x == len * q + r,
                    r + 1 == len,
            ;
            lemma_fundamental_div_mod_converse(x + 1, len, q + 1, 0);
        }
    } else {
        lemma_fundamental_div_mod_converse(s.data.tick, len, 0, s.data.tick);
    }
}

/// An undo takes every note of the latest session off the selected track,
/// silences its instrument, and is served: no second undo follows from the
/// same request.
pub proof fn lemma_undo<F>(s: EngineView<F>)
    requires
        s.undoes(),
    ensures
        s.undo_commands() == seq![
            VoiceCommand::AllNoteOff { processor: s.data.instrument_selected_id as usize },
        ],
        !s.undone().data.undo_last_session,
        !s.undone().undoes(),
        s.undone().undone() == s.undone(),
        s.undone().has_new_notes,
        forall|i: int|
            0 <= i < s.undone().tracks.len() && i != s.data.instrument_selected_id
                ==> #[trigger] s.undone().tracks[i] == s.tracks[i],
        ({
            let before = s.tracks[s.data.instrument_selected_id].note_events;
            let after = s.undone().tracks[s.data.instrument_selected_id].note_events;
            &&& after == without_last_session(before)
            &&& forall|i: int|
                0 <= i < after.len() ==> (#[trigger] after[i]).record_session < highest_session(
                    before,
                )
        }),
{
    let before = s.tracks[s.data.instrument_selected_id].note_events;
    if before.len() > 0 {
        lemma_without_last_session(before);
    }
    assert(s.undone().undone() =~= s.undone());
}

/// In a callback that serves an undo, the order to silence the selected
/// instrument comes first.
pub proof fn lemma_undo_comes_first<F>(s: EngineView<F>, msgs: Seq<MessageView<F>>, n: nat)
    requires
        s.informed(msgs).undoes(),
    ensures
        s.process_commands(msgs, n).len() > 0,
        s.process_commands(msgs, n)[0] == (VoiceCommand::AllNoteOff {
            processor: s.informed(msgs).data.instrument_selected_id as usize,
        }),
        !s.processed(msgs, n).data.undo_last_session,
{
    let s3 = s.informed(msgs).undone().presets_synced();
    lemma_advance_stamp(s3.beat_cleared(), n);
}

/// A callback leaves the clock on the loop, unless a message sets it
/// elsewhere, and keeps the recorded notes valid.
pub proof fn lemma_processed_keeps<F>(s: EngineView<F>, msgs: Seq<MessageView<F>>, n: nat)
    requires
        s.data.wf(),
    ensures
        s.processed(msgs, n).data.wf(),
        s.processed(msgs, n).data.nb_ticks() == s.data.nb_ticks(),
        s.data.tick_in_range() && (forall|k: int|
            0 <= k < msgs.len() ==> keeps_tick_in_range(#[trigger] msgs[k], s.data.nb_ticks()))
            ==> s.processed(msgs, n).data.tick_in_range(),
        s.notes_valid() ==> s.processed(msgs, n).notes_valid(),
{
    let s1 = s.informed(msgs);
    let s2 = s1.undone();
    let s3 = s2.presets_synced();
    let s4 = s3.clocked(n);
    lemma_run_keeps(s.data, msgs);
    lemma_advance_stamp(s3.beat_cleared(), n);
    if s.notes_valid() {
        let nb_ticks = s.data.nb_ticks();
        assert forall|i: int| 0 <= i < s2.tracks.len() implies all_valid(
            (#[trigger] s2.tracks[i]).note_events,
            nb_ticks,
        ) by {
            assert(all_valid(s.tracks[i].note_events, nb_ticks));
            if s1.undoes() && i == s1.data.instrument_selected_id {
                lemma_without_last_session_valid(s.tracks[i].note_events, nb_ticks);
            }
        }
        assert forall|i: int| 0 <= i < s4.tracks.len() implies all_valid(
            (#[trigger] s4.tracks[i]).note_events,
            nb_ticks,
        ) by {
            assert(all_valid(s2.tracks[i].note_events, nb_ticks));
            assert(s3.tracks[i].note_events == s2.tracks[i].note_events);
        }
    }
}

} // verus!
