//! The shared sequencer state and the control messages that change it.
//!
//! Two copies of the state exist at run time, one on the audio side and one
//! on the display side.  They stay coherent because both apply the same
//! messages through [`SequencerData::apply`].  Levels, tempo and waveform
//! samples are carried as values of the type parameter `F` and never
//! computed with.

use vstd::prelude::*;
use vstd::arithmetic::div_mod::{
    lemma_div_pos_is_pos,
    lemma_fundamental_div_mod,
    lemma_mod_bound,
    lemma_mod_multiples_basic,
};
use crate::midimessage::NoteEvent;

verus! {

/// Number of entries of the quantize table.
pub const NB_QUANTIZE: usize = 8;

/// Width, in ticks, of the window at the end of the loop that snaps to the
/// downbeat, and the length given to a note recorded with no duration.
pub const END_WINDOW: i32 = 120;

/// An entry of the quantize table: leave a note where it was played, or
/// snap it to the nearest of so many steps per quarter note.
#[derive(Clone, Copy, Debug, PartialEq, Eq, Structural)]
pub enum Quantize {
    NoSnap,
    SnapTo(i32),
}

/// The quantize table, in the order in which it is shown.
pub open spec fn quantize_entry(idx: int) -> Quantize {
    if idx == 0 {
        Quantize::NoSnap
    } else {
        Quantize::SnapTo(seq![2i32, 4, 8, 16, 32, 64, 128][idx - 1])
    }
}

/// What the display shows for an entry of the quantize table: -1 for "no
/// snap", else the number of steps per quarter note.
pub open spec fn quantize_value(idx: int) -> int {
    match quantize_entry(idx) {
        Quantize::NoSnap => -1,
        Quantize::SnapTo(q) => q as int,
    }
}

/// The nearest multiple of `interval` to `tick`; a tick just in the middle
/// between two goes up.
pub open spec fn snap(tick: int, interval: int) -> int {
    let lower = (tick / interval) * interval;
    if 2 * (tick % interval) >= interval {
        lower + interval
    } else {
        lower
    }
}

/// Where a note played at `tick` is stored, for a quantize entry on a loop
/// of `nb_ticks` ticks with `tpqn` ticks per quarter note.  Whatever lands
/// in the last `END_WINDOW` ticks of the loop goes to the downbeat.
pub open spec fn quantize(tick: int, entry: Quantize, tpqn: int, nb_ticks: int) -> int {
    let t = match entry {
        Quantize::NoSnap => tick,
        Quantize::SnapTo(q) => snap(tick, tpqn / (q as int)),
    };
    if t >= nb_ticks - END_WINDOW {
        0
    } else {
        t
    }
}

/// Quantizing is idempotent for every entry of the table that snaps, as
/// long as it has a step: the quarter note has at least as many ticks as
/// the entry asks for steps.
pub proof fn lemma_quantize_idempotent(tick: int, q: i32, tpqn: int, nb_ticks: int)
    requires
        2 <= q <= tpqn,
    ensures
        quantize(
            quantize(tick, Quantize::SnapTo(q), tpqn, nb_ticks),
            Quantize::SnapTo(q),
            tpqn,
            nb_ticks,
        ) == quantize(tick, Quantize::SnapTo(q), tpqn, nb_ticks),
{
    let interval = tpqn / (q as int);
    assert(interval >= 1) by (nonlinear_arith)
        requires
            2 <= q <= tpqn,
            interval == tpqn / (q as int),
    ;
    lemma_snap_multiple(tick, interval);
    lemma_snap_fixed(snap(tick, interval), interval);
    lemma_snap_fixed(0, interval);
}

/// A snapped tick is a multiple of the step, and the nearest one: at most
/// half a step above the tick, less than half a step below it.
pub proof fn lemma_snap_multiple(tick: int, interval: int)
    requires
        1 <= interval,
    ensures
        snap(tick, interval) % interval == 0,
        2 * (snap(tick, interval) - tick) <= interval,
        2 * (tick - snap(tick, interval)) < interval,
        0 <= tick ==> 0 <= snap(tick, interval),
{
    let k = tick / interval;
    lemma_fundamental_div_mod(tick, interval);
    lemma_mod_bound(tick, interval);
    lemma_mod_multiples_basic(k, interval);
    lemma_mod_multiples_basic(k + 1, interval);
    assert(interval * k == k * interval && (k + 1) * interval == k * interval + interval)
        by (nonlinear_arith);
    if 0 <= tick {
        lemma_div_pos_is_pos(tick, interval);
        assert(0 <= k * interval) by (nonlinear_arith)
            requires
                0 <= k,
                1 <= interval,
        ;
    }
}

/// A multiple of the step snaps to itself.
pub proof fn lemma_snap_fixed(tick: int, interval: int)
    requires
        1 <= interval,
        tick % interval == 0,
    ensures
        snap(tick, interval) == tick,
{
    let k = tick / interval;
    lemma_fundamental_div_mod(tick, interval);
    assert(interval * k == k * interval) by (nonlinear_arith);
}

/// A quantized tick lies on the loop, before the end window unless it is 0.
pub proof fn lemma_quantize_range(tick: int, entry: Quantize, tpqn: int, nb_ticks: int)
    requires
        0 <= tick,
        entry matches Quantize::SnapTo(q) ==> 1 <= tpqn / (q as int),
    ensures
        0 <= quantize(tick, entry, tpqn, nb_ticks),
        quantize(tick, entry, tpqn, nb_ticks) == 0 || quantize(tick, entry, tpqn, nb_ticks)
            < nb_ticks - END_WINDOW,
{
    if let Quantize::SnapTo(q) = entry {
        lemma_snap_multiple(tick, tpqn / (q as int));
    }
}

/// One step forward in a list of `n` entries, wrapping to 0 at the end.  An
/// empty list leaves the index alone.
pub open spec fn next_index(i: int, n: int) -> int {
    if n <= 0 {
        i
    } else if i + 1 >= n {
        0
    } else {
        i + 1
    }
}

/// One step backward in a list of `n` entries, wrapping to the last entry
/// from 0.  An index beyond the list is brought back to its last entry; an
/// empty list leaves the index alone.
pub open spec fn previous_index(i: int, n: int) -> int {
    if n <= 0 {
        i
    } else if i <= 0 || i > n {
        n - 1
    } else {
        i - 1
    }
}

/// One step forward in a list of `n` entries.
pub fn step_forward(i: usize, n: usize) -> (r: usize)
    ensures
        r == next_index(i as int, n as int),
{
    if n == 0 {
        i
    } else if i >= n - 1 {
        0
    } else {
        i + 1
    }
}

/// One step backward in a list of `n` entries.
pub fn step_backward(i: usize, n: usize) -> (r: usize)
    ensures
        r == previous_index(i as int, n as int),
{
    if n == 0 {
        i
    } else if i == 0 || i > n {
        n - 1
    } else {
        i - 1
    }
}

/// What the display shows of one instrument.
#[derive(Clone, Debug)]
pub struct InstrumentData<F> {
    pub name: String,
    pub volume: F,
    pub current_preset_id: usize,
    pub presets: Vec<String>,
    pub paired_notes: Vec<NoteEvent>,
    pub rms_left: F,
    pub rms_right: F,
}

/// Mathematical content of an [`InstrumentData`].
#[verifier::ext_equal]
pub struct InstrumentView<F> {
    pub name: Seq<char>,
    pub volume: F,
    pub current_preset_id: int,
    pub presets: Seq<Seq<char>>,
    pub paired_notes: Seq<NoteEvent>,
    pub rms_left: F,
    pub rms_right: F,
}

impl<F> View for InstrumentData<F> {
    type V = InstrumentView<F>;

    open spec fn view(&self) -> InstrumentView<F> {
        InstrumentView {
            name: self.name@,
            volume: self.volume,
            current_preset_id: self.current_preset_id as int,
            presets: Seq::new(self.presets@.len(), |i: int| self.presets@[i]@),
            paired_notes: self.paired_notes@,
            rms_left: self.rms_left,
            rms_right: self.rms_right,
        }
    }
}

/// The views of a list of instruments.
pub open spec fn instruments_view<F>(list: Seq<InstrumentData<F>>) -> Seq<InstrumentView<F>> {
    Seq::new(list.len(), |i: int| list[i]@)
}

/// The control messages, all of them.
#[derive(Clone, Debug)]
pub enum Message<F> {
    SetTempo(F),
    SetTick(i32),
    SetVolume(F),
    SetMetronomeActive(bool),
    SetBpmHasBiped(bool),
    SetMidiMessagesInstrument(Vec<NoteEvent>),
    SetWaveFormData(Vec<F>),
    SetRMSInstrument(usize, F, F),
    NextInstrument,
    PreviousInstrument,
    PlayStop,
    NextPreset,
    PreviousPreset,
    NextQuantize,
    PreviousQuantize,
    SetIsRecording(bool),
    SetCurrentInstrumentSelected(usize),
    UndoLastSession,
    SetInstruments(Vec<InstrumentData<F>>),
}

/// Mathematical content of a [`Message`].
#[verifier::ext_equal]
pub enum MessageView<F> {
    SetTempo(F),
    SetTick(int),
    SetVolume(F),
    SetMetronomeActive(bool),
    SetBpmHasBiped(bool),
    SetMidiMessagesInstrument(Seq<NoteEvent>),
    SetWaveFormData(Seq<F>),
    SetRMSInstrument(int, F, F),
    NextInstrument,
    PreviousInstrument,
    PlayStop,
    NextPreset,
    PreviousPreset,
    NextQuantize,
    PreviousQuantize,
    SetIsRecording(bool),
    SetCurrentInstrumentSelected(int),
    UndoLastSession,
    SetInstruments(Seq<InstrumentView<F>>),
}

impl<F> View for Message<F> {
    type V = MessageView<F>;

    open spec fn view(&self) -> MessageView<F> {
        match *self {
            Message::SetTempo(x) => MessageView::SetTempo(x),
            Message::SetTick(x) => MessageView::SetTick(x as int),
            Message::SetVolume(x) => MessageView::SetVolume(x),
            Message::SetMetronomeActive(x) => MessageView::SetMetronomeActive(x),
            Message::SetBpmHasBiped(x) => MessageView::SetBpmHasBiped(x),
            Message::SetMidiMessagesInstrument(notes) => MessageView::SetMidiMessagesInstrument(
                notes@,
            ),
            Message::SetWaveFormData(samples) => MessageView::SetWaveFormData(samples@),
            Message::SetRMSInstrument(i, l, r) => MessageView::SetRMSInstrument(i as int, l, r),
            Message::NextInstrument => MessageView::NextInstrument,
            Message::PreviousInstrument => MessageView::PreviousInstrument,
            Message::PlayStop => MessageView::PlayStop,
            Message::NextPreset => MessageView::NextPreset,
            Message::PreviousPreset => MessageView::PreviousPreset,
            Message::NextQuantize => MessageView::NextQuantize,
            Message::PreviousQuantize => MessageView::PreviousQuantize,
            Message::SetIsRecording(x) => MessageView::SetIsRecording(x),
            Message::SetCurrentInstrumentSelected(i) => MessageView::SetCurrentInstrumentSelected(
                i as int,
            ),
            Message::UndoLastSession => MessageView::UndoLastSession,
            Message::SetInstruments(list) => MessageView::SetInstruments(instruments_view(list@)),
        }
    }
}

/// The views of a list of messages.
pub open spec fn messages_view<F>(list: Seq<Message<F>>) -> Seq<MessageView<F>> {
    Seq::new(list.len(), |i: int| list[i]@)
}

/// Transport, clock and instrument list.
pub struct SequencerData<F> {
    pub tempo: F,
    pub quantize_idx: usize,
    pub tick: i32,
    pub bpm_has_biped: bool,
    pub bars: i32,
    pub is_playing: bool,
    pub volume: F,
    pub metronome_active: bool,
    pub ticks_per_quarter_note: i32,
    pub is_recording: bool,
    pub instrument_selected_id: usize,
    pub instruments: Vec<InstrumentData<F>>,
    pub record_session: i32,
    pub undo_last_session: bool,
    pub kill_all_notes: bool,
    pub audio_wave_form: Vec<F>,
}

/// Mathematical content of a [`SequencerData`].
#[verifier::ext_equal]
pub struct DataView<F> {
    pub tempo: F,
    pub quantize_idx: int,
    pub tick: int,
    pub bpm_has_biped: bool,
    pub bars: int,
    pub is_playing: bool,
    pub volume: F,
    pub metronome_active: bool,
    pub ticks_per_quarter_note: int,
    pub is_recording: bool,
    pub instrument_selected_id: int,
    pub instruments: Seq<InstrumentView<F>>,
    pub record_session: int,
    pub undo_last_session: bool,
    pub kill_all_notes: bool,
    pub audio_wave_form: Seq<F>,
}

impl<F> View for SequencerData<F> {
    type V = DataView<F>;

    open spec fn view(&self) -> DataView<F> {
        DataView {
            tempo: self.tempo,
            quantize_idx: self.quantize_idx as int,
            tick: self.tick as int,
            bpm_has_biped: self.bpm_has_biped,
            bars: self.bars as int,
            is_playing: self.is_playing,
            volume: self.volume,
            metronome_active: self.metronome_active,
            ticks_per_quarter_note: self.ticks_per_quarter_note as int,
            is_recording: self.is_recording,
            instrument_selected_id: self.instrument_selected_id as int,
            instruments: instruments_view(self.instruments@),
            record_session: self.record_session as int,
            undo_last_session: self.undo_last_session,
            kill_all_notes: self.kill_all_notes,
            audio_wave_form: self.audio_wave_form@,
        }
    }
}

/// A loaded note belongs to no recording session of this run.
pub open spec fn loaded_note(note: NoteEvent) -> NoteEvent {
    NoteEvent { record_session: -1i32, ..note }
}

/// An instrument as it stands after loading: every note marked as loaded.
pub open spec fn loaded_instrument<F>(inst: InstrumentView<F>) -> InstrumentView<F> {
    InstrumentView {
        paired_notes: Seq::new(inst.paired_notes.len(), |j: int| loaded_note(inst.paired_notes[j])),
        ..inst
    }
}

impl<F> DataView<F> {
    /// Length of the loop in ticks.
    pub open spec fn nb_ticks(self) -> int {
        self.bars * 4 * self.ticks_per_quarter_note
    }

    /// The configuration is usable: the loop has a length that fits the
    /// clock's type, and the quantize index points into the table.
    pub open spec fn wf(self) -> bool {
        &&& 0 < self.bars
        &&& 0 < self.ticks_per_quarter_note
        &&& self.nb_ticks() <= i32::MAX
        &&& 0 <= self.quantize_idx < NB_QUANTIZE
    }

    /// The current entry of the quantize table.
    pub open spec fn quantize_entry(self) -> Quantize {
        quantize_entry(self.quantize_idx)
    }

    /// What the display shows for the current entry.
    pub open spec fn quantize_value(self) -> int {
        quantize_value(self.quantize_idx)
    }

    /// Length in ticks of one quantize step: the quarter note divided by
    /// the number of steps.  Without snap it is the quarter note, negated.
    pub open spec fn quantize_interval(self) -> int {
        match self.quantize_entry() {
            Quantize::NoSnap => -self.ticks_per_quarter_note,
            Quantize::SnapTo(q) => self.ticks_per_quarter_note / (q as int),
        }
    }

    /// The current entry can be used: it does not snap, or it has a step,
    /// of one tick at least.
    pub open spec fn can_quantize(self) -> bool {
        self.quantize_entry() is NoSnap || self.quantize_interval() >= 1
    }

    /// Where a note played now is stored.
    pub open spec fn quantized_tick(self) -> int {
        quantize(self.tick, self.quantize_entry(), self.ticks_per_quarter_note, self.nb_ticks())
    }

    /// The clock lies on the loop.
    pub open spec fn tick_in_range(self) -> bool {
        0 <= self.tick < self.nb_ticks()
    }

    /// An instrument is selected.
    pub open spec fn has_selection(self) -> bool {
        0 <= self.instrument_selected_id < self.instruments.len()
    }

    /// The state with the selected instrument replaced; unchanged when no
    /// instrument is selected.
    pub open spec fn with_selected(self, f: spec_fn(InstrumentView<F>) -> InstrumentView<F>) -> Self {
        if self.has_selection() {
            DataView {
                instruments: self.instruments.update(
                    self.instrument_selected_id,
                    f(self.instruments[self.instrument_selected_id]),
                ),
                ..self
            }
        } else {
            self
        }
    }

    /// The state after one message.
    pub open spec fn step(self, msg: MessageView<F>) -> Self {
        match msg {
            MessageView::PlayStop => DataView {
                is_playing: !self.is_playing,
                tick: 0,
                record_session: self.record_session + 1,
                kill_all_notes: self.kill_all_notes || self.is_playing,
                ..self
            },
            MessageView::SetTempo(x) => DataView { tempo: x, ..self },
            MessageView::SetMetronomeActive(x) => DataView { metronome_active: x, ..self },
            MessageView::SetTick(x) => DataView { tick: x, ..self },
            MessageView::SetIsRecording(x) => DataView {
                is_recording: x,
                record_session: self.record_session + 1,
                ..self
            },
            MessageView::SetBpmHasBiped(x) => DataView { bpm_has_biped: x, ..self },
            MessageView::NextInstrument => DataView {
                instrument_selected_id: next_index(
                    self.instrument_selected_id,
                    self.instruments.len() as int,
                ),
                ..self
            },
            MessageView::PreviousInstrument => DataView {
                instrument_selected_id: previous_index(
                    self.instrument_selected_id,
                    self.instruments.len() as int,
                ),
                ..self
            },
            MessageView::NextPreset => self.with_selected(
                |inst: InstrumentView<F>|
                    InstrumentView {
                        current_preset_id: next_index(
                            inst.current_preset_id,
                            inst.presets.len() as int,
                        ),
                        ..inst
                    },
            ),
            MessageView::PreviousPreset => self.with_selected(
                |inst: InstrumentView<F>|
                    InstrumentView {
                        current_preset_id: previous_index(
                            inst.current_preset_id,
                            inst.presets.len() as int,
                        ),
                        ..inst
                    },
            ),
            MessageView::NextQuantize => DataView {
                quantize_idx: next_index(self.quantize_idx, NB_QUANTIZE as int),
                ..self
            },
            MessageView::PreviousQuantize => DataView {
                quantize_idx: previous_index(self.quantize_idx, NB_QUANTIZE as int),
                ..self
            },
            MessageView::SetMidiMessagesInstrument(notes) => self.with_selected(
                |inst: InstrumentView<F>| InstrumentView { paired_notes: notes, ..inst },
            ),
            MessageView::UndoLastSession => DataView { undo_last_session: true, ..self },
            MessageView::SetWaveFormData(samples) => DataView { audio_wave_form: samples, ..self },
            MessageView::SetRMSInstrument(i, l, r) => if 0 <= i < self.instruments.len() {
                DataView {
                    instruments: self.instruments.update(
                        i,
                        InstrumentView { rms_left: l, rms_right: r, ..self.instruments[i] },
                    ),
                    ..self
                }
            } else {
                self
            },
            MessageView::SetInstruments(list) => DataView {
                instruments: Seq::new(list.len(), |i: int| loaded_instrument(list[i])),
                ..self
            },
            MessageView::SetVolume(_) => self,
            MessageView::SetCurrentInstrumentSelected(_) => self,
        }
    }

    /// The state after a list of messages, applied in order.
    pub open spec fn run(self, msgs: Seq<MessageView<F>>) -> Self
        decreases msgs.len(),
    {
        if msgs.len() == 0 {
            self
        } else {
            self.run(msgs.drop_last()).step(msgs.last())
        }
    }
}

/// Whether a message starts a new recording session.
pub open spec fn starts_session<F>(msg: MessageView<F>) -> bool {
    msg is PlayStop || msg is SetIsRecording
}

/// How many of the messages start a new recording session.
pub open spec fn sessions_started<F>(msgs: Seq<MessageView<F>>) -> nat
    decreases msgs.len(),
{
    if msgs.len() == 0 {
        0
    } else {
        sessions_started(msgs.drop_last()) + if starts_session(msgs.last()) {
            1nat
        } else {
            0nat
        }
    }
}

/// Whether a message leaves the clock on a loop of `nb_ticks` ticks.
pub open spec fn keeps_tick_in_range<F>(msg: MessageView<F>, nb_ticks: int) -> bool {
    msg matches MessageView::SetTick(x) ==> 0 <= x < nb_ticks
}

/// A message changes neither the length of the loop nor the validity of
/// the configuration, and leaves the clock on the loop unless it sets it
/// elsewhere.
pub proof fn lemma_step_keeps<F>(s: DataView<F>, msg: MessageView<F>)
    ensures
        s.step(msg).bars == s.bars,
        s.step(msg).ticks_per_quarter_note == s.ticks_per_quarter_note,
        s.wf() ==> s.step(msg).wf(),
        s.wf() && s.tick_in_range() && keeps_tick_in_range(msg, s.nb_ticks()) ==> s.step(
            msg,
        ).tick_in_range(),
{
    if s.wf() {
        assert(s.nb_ticks() >= 4) by (nonlinear_arith)
            requires
                0 < s.bars,
                0 < s.ticks_per_quarter_note,
                s.nb_ticks() == s.bars * 4 * s.ticks_per_quarter_note,
        ;
    }
}

/// The same of a list of messages.
pub proof fn lemma_run_keeps<F>(s: DataView<F>, msgs: Seq<MessageView<F>>)
    ensures
        s.run(msgs).bars == s.bars,
        s.run(msgs).ticks_per_quarter_note == s.ticks_per_quarter_note,
        s.wf() ==> s.run(msgs).wf(),
        s.wf() && s.tick_in_range() && (forall|k: int|
            0 <= k < msgs.len() ==> keeps_tick_in_range(#[trigger] msgs[k], s.nb_ticks()))
            ==> s.run(msgs).tick_in_range(),
    decreases msgs.len(),
{
    if msgs.len() > 0 {
        let rest = msgs.drop_last();
        lemma_run_keeps(s, rest);
        lemma_step_keeps(s.run(rest), msgs.last());
        if forall|k: int|
            0 <= k < msgs.len() ==> keeps_tick_in_range(#[trigger] msgs[k], s.nb_ticks()) {
            assert forall|k: int| 0 <= k < rest.len() implies keeps_tick_in_range(
                #[trigger] rest[k],
                s.nb_ticks(),
            ) by {
                assert(rest[k] == msgs[k]);
            }
            assert(keeps_tick_in_range(msgs[msgs.len() - 1], s.nb_ticks()));
        }
    }
}

impl<F> InstrumentView<F> {
    /// The current preset is one of the presets.
    pub open spec fn preset_in_range(self) -> bool {
        0 <= self.current_preset_id < self.presets.len()
    }
}

/// As long as no new list of instruments comes, one instrument stays
/// selected and every instrument stays on a preset of its own: whatever
/// else the message is, the selection and the current presets remain
/// within their lists.
pub proof fn lemma_step_keeps_selection<F>(s: DataView<F>, msg: MessageView<F>)
    requires
        !(msg is SetInstruments),
        s.has_selection(),
        forall|i: int| 0 <= i < s.instruments.len() ==> (#[trigger] s.instruments[i]).preset_in_range(),
    ensures
        s.step(msg).has_selection(),
        s.step(msg).instruments.len() == s.instruments.len(),
        forall|i: int|
            0 <= i < s.instruments.len() ==> (#[trigger] s.step(msg).instruments[i]).preset_in_range(),
{
    let sel = s.instrument_selected_id;
    assert(s.instruments[sel].preset_in_range());
    assert forall|i: int| 0 <= i < s.instruments.len() implies (#[trigger] s.step(
        msg,
    ).instruments[i]).preset_in_range() by {
        assert(s.instruments[i].preset_in_range());
    }
}

/// Loading a project keeps every note of it, marked as loaded: the notes
/// of each instrument are those of the list that was loaded, in their
/// order, with `record_session` set to -1 and nothing else changed.
pub proof fn lemma_loaded_notes<F>(s: DataView<F>, list: Seq<InstrumentView<F>>)
    ensures
        s.step(MessageView::SetInstruments(list)).instruments.len() == list.len(),
        forall|i: int, j: int|
            0 <= i < list.len() && 0 <= j < list[i].paired_notes.len() ==> {
                let loaded = s.step(MessageView::SetInstruments(list)).instruments[i];
                &&& loaded.paired_notes.len() == list[i].paired_notes.len()
                &&& loaded.paired_notes[j] == (NoteEvent {
                    record_session: -1i32,
                    ..#[trigger] list[i].paired_notes[j]
                })
            },
        forall|i: int|
            0 <= i < list.len() ==> {
                let loaded = #[trigger] s.step(MessageView::SetInstruments(list)).instruments[i];
                &&& loaded.name == list[i].name
                &&& loaded.volume == list[i].volume
                &&& loaded.current_preset_id == list[i].current_preset_id
                &&& loaded.presets == list[i].presets
            },
{
}

/// The session counter grows by one for each message that starts a session.
pub proof fn lemma_run_session<F>(s: DataView<F>, msgs: Seq<MessageView<F>>)
    ensures
        s.run(msgs).record_session == s.record_session + sessions_started(msgs),
    decreases msgs.len(),
{
    if msgs.len() > 0 {
        lemma_run_session(s, msgs.drop_last());
    }
}

/// A prefix of a message list starts no more sessions than the list; one
/// message more starts at most one more.
pub proof fn lemma_sessions_monotonic<F>(msgs: Seq<MessageView<F>>, k: int)
    requires
        0 <= k <= msgs.len(),
    ensures
        sessions_started(msgs.take(k)) <= sessions_started(msgs),
        k < msgs.len() ==> sessions_started(msgs.take(k + 1)) == sessions_started(msgs.take(k))
            + if starts_session(msgs[k]) {
            1nat
        } else {
            0nat
        },
    decreases msgs.len() - k,
{
    if k < msgs.len() {
        assert(msgs.take(k + 1).drop_last() =~= msgs.take(k));
        lemma_sessions_monotonic(msgs, k + 1);
    } else {
        assert(msgs.take(k) =~= msgs);
    }
}

/// How many of the messages start a new recording session.
pub fn count_sessions<F>(msgs: &Vec<Message<F>>) -> (n: usize)
    ensures
        n == sessions_started(messages_view(msgs@)),
{
    let ghost all = messages_view(msgs@);
    let len = msgs.len();
    let mut n: usize = 0;
    let mut k: usize = 0;
    proof {
        assert(all.take(0) =~= Seq::empty());
    }
    while k < len
        invariant
            k <= len,
            len == msgs@.len(),
            all == messages_view(msgs@),
            n <= k,
            n == sessions_started(all.take(k as int)),
        decreases len - k,
    {
        proof {
            lemma_sessions_monotonic(all, k as int);
        }
        match msgs[k] {
            Message::PlayStop => {
                n += 1;
            },
            Message::SetIsRecording(_) => {
                n += 1;
            },
            _ => {},
        }
        k += 1;
    }
    proof {
        assert(all.take(len as int) =~= all);
    }
    n
}

/// Marks every note of the list as loaded.
pub fn mark_loaded(notes: &mut Vec<NoteEvent>)
    ensures
        final(notes)@ == Seq::new(old(notes)@.len(), |j: int| loaded_note(old(notes)@[j])),
{
    let n = notes.len();
    let mut j: usize = 0;
    while j < n
        invariant
            n == notes@.len(),
            n == old(notes)@.len(),
            j <= n,
            forall|k: int| 0 <= k < j ==> notes@[k] == loaded_note(old(notes)@[k]),
            forall|k: int| j <= k < n ==> notes@[k] == old(notes)@[k],
        decreases n - j,
    {
        let note = notes[j];
        notes.set(j, NoteEvent { record_session: -1, ..note });
        j += 1;
    }
    assert(notes@ =~= Seq::new(old(notes)@.len(), |j: int| loaded_note(old(notes)@[j])));
}

/// Marks every note of every instrument of the list as loaded.
pub fn mark_all_loaded<F>(list: &mut Vec<InstrumentData<F>>)
    ensures
        instruments_view(final(list)@) == Seq::new(
            old(list)@.len(),
            |i: int| loaded_instrument(old(list)@[i]@),
        ),
{
    let n = list.len();
    let mut i: usize = 0;
    while i < n
        invariant
            n == list@.len(),
            n == old(list)@.len(),
            i <= n,
            forall|k: int|
                0 <= k < i ==> (#[trigger] list@[k])@ == loaded_instrument(old(list)@[k]@),
            forall|k: int| i <= k < n ==> list@[k] == old(list)@[k],
        decreases n - i,
    {
        mark_loaded(&mut list[i].paired_notes);
        assert(list@[i as int]@ =~= loaded_instrument(old(list)@[i as int]@));
        i += 1;
    }
    assert(instruments_view(list@) =~= Seq::new(
        old(list)@.len(),
        |i: int| loaded_instrument(old(list)@[i]@),
    ));
}

impl<F> SequencerData<F> {
    /// The configuration is usable: see [`DataView::wf`].
    pub open spec fn wf(&self) -> bool {
        self@.wf()
    }

    /// Whether the configuration is usable.
    pub fn is_wf(&self) -> (b: bool)
        ensures
            b == self.wf(),
    {
        if self.bars <= 0 || self.ticks_per_quarter_note <= 0 || self.quantize_idx >= NB_QUANTIZE {
            return false;
        }
        let (bars, tpqn) = (self.bars as i64, self.ticks_per_quarter_note as i64);
        if bars > 0x1fff_ffff {
            assert(self@.nb_ticks() > i32::MAX) by (nonlinear_arith)
                requires
                    bars > 0x1fff_ffff,
                    tpqn >= 1,
                    self@.nb_ticks() == bars * 4 * tpqn,
            ;
            return false;
        }
        assert(0 <= (bars * 4) * tpqn <= 0x7fff_fffc * 0x7fff_ffff) by (nonlinear_arith)
            requires
                0 < bars <= 0x1fff_ffff,
                0 < tpqn <= 0x7fff_ffff,
        ;
        bars * 4 * tpqn <= i32::MAX as i64
    }

    /// Whether a note played now can be given its place: the current
    /// quantize entry does not snap, or its step is at least one tick long.
    pub fn can_quantize(&self) -> (b: bool)
        requires
            self.wf(),
        ensures
            b == self@.can_quantize(),
    {
        match self.quantize_entry() {
            Quantize::NoSnap => true,
            Quantize::SnapTo(_) => self.quantize_interval() >= 1,
        }
    }

    /// A stopped sequencer at tick 0: two bars of 960 ticks per quarter
    /// note, recording armed, metronome on, four quantize steps per quarter
    /// note, no instrument yet.
    pub fn new(tempo: F, volume: F) -> (data: SequencerData<F>)
        ensures
            data.wf(),
            data@ == (DataView {
                tempo,
                quantize_idx: 2,
                tick: 0,
                bpm_has_biped: false,
                bars: 2,
                is_playing: false,
                volume,
                metronome_active: true,
                ticks_per_quarter_note: 960,
                is_recording: true,
                instrument_selected_id: 0,
                instruments: Seq::empty(),
                record_session: 0,
                undo_last_session: false,
                kill_all_notes: false,
                audio_wave_form: Seq::empty(),
            }),
    {
        let data = SequencerData {
            tick: 0,
            tempo,
            quantize_idx: 2,
            bars: 2,
            is_playing: false,
            bpm_has_biped: false,
            volume,
            metronome_active: true,
            is_recording: true,
            ticks_per_quarter_note: 960,
            instrument_selected_id: 0,
            instruments: Vec::new(),
            record_session: 0,
            undo_last_session: false,
            kill_all_notes: false,
            audio_wave_form: Vec::new(),
        };
        assert(data@.instruments =~= Seq::empty());
        assert(data@.nb_ticks() == 7680);
        data
    }

    /// Moves the selected instrument one preset forward or backward.
    fn select_preset(&mut self, forward: bool)
        ensures
            final(self)@ == old(self)@.step(
                if forward {
                    MessageView::NextPreset
                } else {
                    MessageView::PreviousPreset
                },
            ),
    {
        let sel = self.instrument_selected_id;
        if sel < self.instruments.len() {
            let id = self.instruments[sel].current_preset_id;
            let n = self.instruments[sel].presets.len();
            self.instruments[sel].current_preset_id = if forward {
                step_forward(id, n)
            } else {
                step_backward(id, n)
            };
        }
        assert(self@.instruments =~= old(self)@.step(
            if forward {
                MessageView::NextPreset
            } else {
                MessageView::PreviousPreset
            },
        ).instruments);
    }

    /// Replaces the notes shown for the selected instrument.
    fn set_paired_notes(&mut self, note_events: Vec<NoteEvent>)
        ensures
            final(self)@ == old(self)@.step(MessageView::SetMidiMessagesInstrument(note_events@)),
    {
        let sel = self.instrument_selected_id;
        if sel < self.instruments.len() {
            self.instruments[sel].paired_notes = note_events;
        }
        assert(self@.instruments =~= old(self)@.step(
            MessageView::SetMidiMessagesInstrument(note_events@),
        ).instruments);
    }

    /// Stores the level meter of one instrument.
    fn set_rms(&mut self, idx: usize, rms_left: F, rms_right: F)
        ensures
            final(self)@ == old(self)@.step(
                MessageView::SetRMSInstrument(idx as int, rms_left, rms_right),
            ),
    {
        if idx < self.instruments.len() {
            self.instruments[idx].rms_left = rms_left;
            self.instruments[idx].rms_right = rms_right;
        }
        assert(self@.instruments =~= old(self)@.step(
            MessageView::SetRMSInstrument(idx as int, rms_left, rms_right),
        ).instruments);
    }

    /// Applies one control message.
    pub fn apply(&mut self, msg: Message<F>)
        requires
            starts_session(msg@) ==> old(self).record_session < i32::MAX,
        ensures
            final(self)@ == old(self)@.step(msg@),
    {
        let sel = self.instrument_selected_id;
        let ghost before = self@;
        match msg {
            Message::PlayStop => {
                if self.is_playing {
                    self.kill_all_notes = true;
                }
                self.is_playing = !self.is_playing;
                self.tick = 0;
                self.record_session += 1;
            },
            Message::SetTempo(x) => {
                self.tempo = x;
            },
            Message::SetMetronomeActive(x) => {
                self.metronome_active = x;
            },
            Message::SetTick(x) => {
                self.tick = x;
            },
            Message::SetIsRecording(x) => {
                self.is_recording = x;
                self.record_session += 1;
            },
            Message::SetBpmHasBiped(x) => {
                self.bpm_has_biped = x;
            },
            Message::NextInstrument => {
                self.instrument_selected_id = step_forward(sel, self.instruments.len());
            },
            Message::PreviousInstrument => {
                self.instrument_selected_id = step_backward(sel, self.instruments.len());
            },
            Message::NextPreset => {
                self.select_preset(true);
            },
            Message::PreviousPreset => {
                self.select_preset(false);
            },
            Message::NextQuantize => {
                self.quantize_idx = step_forward(self.quantize_idx, NB_QUANTIZE);
            },
            Message::PreviousQuantize => {
                self.quantize_idx = step_backward(self.quantize_idx, NB_QUANTIZE);
            },
            Message::SetMidiMessagesInstrument(note_events) => {
                self.set_paired_notes(note_events);
            },
            Message::UndoLastSession => {
                self.undo_last_session = true;
            },
            Message::SetWaveFormData(audio_wave_form) => {
                self.audio_wave_form = audio_wave_form;
            },
            Message::SetRMSInstrument(idx, rms_left, rms_right) => {
                self.set_rms(idx, rms_left, rms_right);
            },
            Message::SetInstruments(instruments) => {
                self.instruments = instruments;
                mark_all_loaded(&mut self.instruments);
            },
            Message::SetVolume(_) => {
            },
            Message::SetCurrentInstrumentSelected(_) => {
            },
        }
        assert(self@ =~= before.step(msg@));
    }

    /// Applies the messages drained from the inbox, oldest first.
    pub fn process_messages(&mut self, msgs: Vec<Message<F>>)
        requires
            old(self).record_session + sessions_started(messages_view(msgs@)) <= i32::MAX,
        ensures
            final(self)@ == old(self)@.run(messages_view(msgs@)),
    {
        let ghost all = messages_view(msgs@);
        proof {
            assert(all.take(0) =~= Seq::empty());
            assert(all.take(all.len() as int) =~= all);
        }
        for msg in it: msgs.into_iter()
            invariant
                it.seq() == msgs@,
                all == messages_view(msgs@),
                self@ == old(self)@.run(all.take(it.index() as int)),
                old(self).record_session + sessions_started(all) <= i32::MAX,
        {
            proof {
                let k = it.index() as int;
                assert(msg@ == all[k]);
                assert(all.take(k + 1).drop_last() =~= all.take(k));
                assert(all.take(k + 1).last() == all[k]);
                lemma_run_session(old(self)@, all.take(k));
                lemma_sessions_monotonic(all, k);
                lemma_sessions_monotonic(all, k + 1);
                assert(all.take(all.len() as int) =~= all);
            }
            self.apply(msg);
        }
    }

    /// Length of the loop in ticks.
    pub fn nb_ticks(&self) -> (n: i32)
        requires
            self.wf(),
        ensures
            n == self@.nb_ticks(),
            n >= 4,
    {
        assert(self.bars * 4 * self.ticks_per_quarter_note >= 4 && self.bars * 4 <= self.bars * 4
            * self.ticks_per_quarter_note) by (nonlinear_arith)
            requires
                0 < self.bars,
                0 < self.ticks_per_quarter_note,
        ;
        self.bars * 4 * self.ticks_per_quarter_note
    }

    /// First tick of the window at the end of the loop that snaps to tick 0.
    pub fn end_quantize_adjust(&self) -> (t: i32)
        requires
            self.wf(),
        ensures
            t == self@.nb_ticks() - END_WINDOW,
    {
        self.nb_ticks() - END_WINDOW
    }

    /// Length in ticks of one quantize step.
    pub fn quantize_interval(&self) -> (interval: i32)
        requires
            self.wf(),
        ensures
            interval == self@.quantize_interval(),
    {
        match self.quantize_entry() {
            Quantize::NoSnap => -self.ticks_per_quarter_note,
            Quantize::SnapTo(q) => self.ticks_per_quarter_note / q,
        }
    }

    /// Where a note played now is stored: the clock, snapped to the grid of
    /// the current quantize entry, and to tick 0 near the end of the loop.
    pub fn quantize_tick(&self) -> (t: i32)
        requires
            self.wf(),
            self@.can_quantize(),
            0 <= self.tick,
        ensures
            t == self@.quantized_tick(),
    {
        let end = self.end_quantize_adjust();
        let steps_per_quarter = match self.quantize_entry() {
            Quantize::NoSnap => {
                if self.tick >= end {
                    return 0;
                }
                return self.tick;
            },
            Quantize::SnapTo(q) => q,
        };
        let current_tick = self.tick;
        let interval = self.quantize_interval();
        let steps = current_tick / interval;
        let offset = current_tick % interval;
        proof {
            let (t, i) = (current_tick as int, interval as int);
            assert(0 <= (t / i) * i <= t && t == (t / i) * i + t % i) by (nonlinear_arith)
                requires
                    0 <= t,
                    1 <= i,
            ;
            assert(0 <= t % i < i) by (nonlinear_arith)
                requires
                    0 <= t,
                    1 <= i,
            ;
            let (p, q) = (self.ticks_per_quarter_note as int, steps_per_quarter as int);
            assert(i <= p) by (nonlinear_arith)
                requires
                    i == p / q,
                    0 < p,
                    2 <= q,
            ;
            assert(4 * self.ticks_per_quarter_note <= self@.nb_ticks()) by (nonlinear_arith)
                requires
                    0 < self.bars,
                    0 < self.ticks_per_quarter_note,
            ;
        }
        let lower = steps * interval;
        if 2 * offset >= interval {
            if lower >= end - interval {
                0
            } else {
                lower + interval
            }
        } else if lower >= end {
            0
        } else {
            lower
        }
    }

    /// The current entry of the quantize table.
    pub fn quantize_entry(&self) -> (entry: Quantize)
        requires
            self.quantize_idx < NB_QUANTIZE,
        ensures
            entry == quantize_entry(self.quantize_idx as int),
            entry matches Quantize::SnapTo(q) ==> 2 <= q <= 128,
    {
        match self.quantize_idx {
            0 => Quantize::NoSnap,
            1 => Quantize::SnapTo(2),
            2 => Quantize::SnapTo(4),
            3 => Quantize::SnapTo(8),
            4 => Quantize::SnapTo(16),
            5 => Quantize::SnapTo(32),
            6 => Quantize::SnapTo(64),
            _ => Quantize::SnapTo(128),
        }
    }

    /// What the display shows for the current entry of the quantize table:
    /// -1 for "no snap", else the number of steps per quarter note.
    pub fn get_quantize(&self) -> (q: i32)
        requires
            self.quantize_idx < NB_QUANTIZE,
        ensures
            q == quantize_value(self.quantize_idx as int),
    {
        match self.quantize_entry() {
            Quantize::NoSnap => -1,
            Quantize::SnapTo(q) => q,
        }
    }
}

} // verus!
