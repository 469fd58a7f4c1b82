//! The metronome: which stretch of which beep sounds in each callback.
//!
//! The two beeps are buffers of one length that the audio side owns.  This
//! module keeps, for each beep that is sounding, how far it has been played.

use vstd::prelude::*;
use crate::voice_pool::{compacted, Voice, VoicePool};

verus! {

/// Number of metronome voices.  One of them always stays spare.
pub const MAX_NOTES: usize = 8;

/// One beep being played.
#[derive(Clone, Copy, Debug, PartialEq, Eq, Structural)]
pub struct MetronomeVoice {
    pub active: bool,
    pub buffer_index: usize,
    /// Whether this is the beep for the start of a bar.
    pub start_bar: bool,
}

/// A stretch of a beep to add to the output, frame by frame from the
/// start of the block: samples `first .. first + count` of the buffer.
#[derive(Clone, Copy, Debug, PartialEq, Eq, Structural)]
pub struct BeepSpan {
    pub start_bar: bool,
    pub first: usize,
    pub count: usize,
}

/// Number of stereo frames in a block of `num_samples * nb_channels`
/// interleaved samples.
pub open spec fn frames(num_samples: int, nb_channels: int) -> int {
    (num_samples * nb_channels + 1) / 2
}

impl MetronomeVoice {
    /// The voice after a block of `frames` frames: its position moves on by
    /// that much, and it is over once a frame of the block found the buffer
    /// at its end.
    pub open spec fn rendered(self, buffer_len: int, frames: int) -> MetronomeVoice {
        MetronomeVoice {
            active: self.active && (frames <= 0 || self.buffer_index + frames <= buffer_len),
            buffer_index: (self.buffer_index + frames) as usize,
            start_bar: self.start_bar,
        }
    }

    /// What the voice contributes to a block of `frames` frames: the part
    /// of the block for which the buffer still has samples.
    pub open spec fn span(self, buffer_len: int, frames: int) -> BeepSpan {
        BeepSpan {
            start_bar: self.start_bar,
            first: self.buffer_index,
            count: if self.buffer_index >= buffer_len {
                0
            } else if buffer_len - self.buffer_index < frames {
                (buffer_len - self.buffer_index) as usize
            } else {
                frames as usize
            },
        }
    }

    /// A voice at the start of the beep for the other beats.
    pub fn new() -> (voice: MetronomeVoice)
        ensures
            voice == (MetronomeVoice { active: true, buffer_index: 0, start_bar: false }),
    {
        MetronomeVoice { active: true, buffer_index: 0, start_bar: false }
    }

    /// Plays the voice for one block and says which samples of its beep go
    /// into the output.
    pub fn render_next_block(
        &mut self,
        buffer_len: usize,
        num_samples: usize,
        nb_channels: usize,
    ) -> (span: BeepSpan)
        requires
            num_samples * nb_channels < usize::MAX,
            old(self).buffer_index + frames(num_samples as int, nb_channels as int) <= usize::MAX,
        ensures
            *final(self) == old(self).rendered(
                buffer_len as int,
                frames(num_samples as int, nb_channels as int),
            ),
            span == old(self).span(
                buffer_len as int,
                frames(num_samples as int, nb_channels as int),
            ),
    {
        let total = num_samples * nb_channels;
        let nb_frames = (total + 1) / 2;
        let first = self.buffer_index;
        let count = if first >= buffer_len {
            0
        } else if buffer_len - first < nb_frames {
            buffer_len - first
        } else {
            nb_frames
        };
        if count < nb_frames {
            self.active = false;
        }
        self.buffer_index = first + nb_frames;
        BeepSpan { start_bar: self.start_bar, first, count }
    }

    /// Whether the beep is over.
    pub fn is_ended(&self) -> (b: bool)
        ensures
            b == !self.active,
    {
        !self.active
    }
}

impl Voice for MetronomeVoice {
    open spec fn ended(&self) -> bool {
        !self.active
    }

    fn is_ended(&self) -> (b: bool) {
        !self.active
    }
}

/// The beeps that are sounding.
pub struct Metronome {
    /// Length in samples of each of the two beeps.
    pub buffer_len: usize,
    pub pool: VoicePool<MetronomeVoice>,
}

/// The voices after a block, each played on by `frames` frames.
pub open spec fn all_rendered(
    voices: Seq<MetronomeVoice>,
    buffer_len: int,
    frames: int,
) -> Seq<MetronomeVoice> {
    Seq::new(voices.len(), |i: int| voices[i].rendered(buffer_len, frames))
}

/// What the voices contribute to a block.
pub open spec fn all_spans(voices: Seq<MetronomeVoice>, buffer_len: int, frames: int) -> Seq<
    BeepSpan,
> {
    Seq::new(voices.len(), |i: int| voices[i].span(buffer_len, frames))
}

impl Metronome {
    /// Every sounding beep is active and has not run past its buffer, and
    /// one voice stays spare.
    pub open spec fn wf(&self) -> bool {
        &&& self.pool.limit == MAX_NOTES - 1
        &&& self.pool.wf()
        &&& self.pool.capacity() == MAX_NOTES
        &&& forall|i: int|
            0 <= i < self.pool.sounding@.len() ==> {
                &&& (#[trigger] self.pool.sounding@[i]).active
                &&& self.pool.sounding@[i].buffer_index <= self.buffer_len
            }
    }

    /// Whether the metronome is in order.
    pub fn is_wf(&self) -> (b: bool)
        ensures
            b == self.wf(),
    {
        let n = self.pool.sounding.len();
        if self.pool.limit != MAX_NOTES - 1 || n > self.pool.limit || self.pool.idle.len()
            != MAX_NOTES - n {
            return false;
        }
        let mut i: usize = 0;
        while i < n
            invariant
                i <= n,
                n == self.pool.sounding@.len(),
                forall|k: int|
                    0 <= k < i ==> {
                        &&& (#[trigger] self.pool.sounding@[k]).active
                        &&& self.pool.sounding@[k].buffer_index <= self.buffer_len
                    },
            decreases n - i,
        {
            if !self.pool.sounding[i].active || self.pool.sounding[i].buffer_index
                > self.buffer_len {
                return false;
            }
            i += 1;
        }
        true
    }

    /// A silent metronome for beeps of `buffer_len` samples.
    pub fn new(buffer_len: usize) -> (metronome: Metronome)
        ensures
            metronome.wf(),
            metronome.buffer_len == buffer_len,
            metronome.pool.sounding@.len() == 0,
    {
        let mut voices: Vec<MetronomeVoice> = Vec::new();
        let mut i: usize = 0;
        while i < MAX_NOTES
            invariant
                i <= MAX_NOTES,
                voices@.len() == i,
            decreases MAX_NOTES - i,
        {
            voices.push(MetronomeVoice::new());
            i += 1;
        }
        Metronome { buffer_len, pool: VoicePool::new(voices, MAX_NOTES - 1) }
    }

    /// Starts a beep, the one for the start of a bar or the other, unless
    /// all the voices that may sound are taken.
    pub fn bip(&mut self, start_bar: bool)
        requires
            old(self).wf(),
        ensures
            final(self).wf(),
            final(self).buffer_len == old(self).buffer_len,
            final(self).pool.sounding@ == if old(self).pool.sounding@.len() < MAX_NOTES - 1 {
                old(self).pool.sounding@.push(
                    MetronomeVoice { active: true, buffer_index: 0, start_bar },
                )
            } else {
                old(self).pool.sounding@
            },
    {
        match self.pool.allocate() {
            Some(slot) => {
                self.pool.sounding.set(
                    slot,
                    MetronomeVoice { active: true, buffer_index: 0, start_bar },
                );
                assert(self.pool.sounding@ =~= old(self).pool.sounding@.push(
                    MetronomeVoice { active: true, buffer_index: 0, start_bar },
                ));
            },
            None => {},
        }
    }

    /// Plays every sounding beep for one block, then puts aside those that
    /// are over.  Returns, for each beep that was sounding, the samples to
    /// add to the output.
    pub fn process(&mut self, num_samples: usize, nb_channels: usize) -> (spans: Vec<BeepSpan>)
        requires
            old(self).wf(),
            num_samples * nb_channels < usize::MAX,
            old(self).buffer_len + frames(num_samples as int, nb_channels as int) <= usize::MAX,
        ensures
            final(self).wf(),
            final(self).buffer_len == old(self).buffer_len,
            spans@ == all_spans(
                old(self).pool.sounding@,
                old(self).buffer_len as int,
                frames(num_samples as int, nb_channels as int),
            ),
            final(self).pool.sounding@ == compacted(
                all_rendered(
                    old(self).pool.sounding@,
                    old(self).buffer_len as int,
                    frames(num_samples as int, nb_channels as int),
                ),
                0,
            ),
    {
        let ghost nb_frames = frames(num_samples as int, nb_channels as int);
        let ghost len = self.buffer_len as int;
        let ghost before = self.pool.sounding@;
        let mut spans: Vec<BeepSpan> = Vec::new();
        let n = self.pool.sounding.len();
        let mut i: usize = 0;
        while i < n
            invariant
                i <= n,
                n == before.len(),
                n == self.pool.sounding@.len(),
                before == old(self).pool.sounding@,
                len == self.buffer_len,
                self.buffer_len == old(self).buffer_len,
                self.pool.limit == old(self).pool.limit,
                self.pool.idle@ == old(self).pool.idle@,
                old(self).wf(),
                nb_frames == frames(num_samples as int, nb_channels as int),
                num_samples * nb_channels < usize::MAX,
                len + nb_frames <= usize::MAX,
                spans@.len() == i,
                forall|k: int| 0 <= k < i ==> spans@[k] == before[k].span(len, nb_frames),
                forall|k: int|
                    0 <= k < i ==> self.pool.sounding@[k] == before[k].rendered(len, nb_frames),
                forall|k: int| i <= k < n ==> self.pool.sounding@[k] == before[k],
            decreases n - i,
        {
            assert(before[i as int].active && before[i as int].buffer_index <= len);
            let span = self.pool.sounding[i].render_next_block(
                self.buffer_len,
                num_samples,
                nb_channels,
            );
            spans.push(span);
            i += 1;
        }
        proof {
            assert(spans@ =~= all_spans(before, len, nb_frames));
            assert(self.pool.sounding@ =~= all_rendered(before, len, nb_frames));
            crate::voice_pool::lemma_compacted(self.pool.sounding@, 0);
        }
        let ghost played = self.pool.sounding@;
        self.pool.compact();
        proof {
            let kept = self.pool.sounding@;
            assert forall|k: int| 0 <= k < kept.len() implies (#[trigger] kept[k]).active
                && kept[k].buffer_index <= self.buffer_len by {
                assert(!kept[k].ended());
                assert(kept.to_multiset().count(kept[k]) > 0) by {
                    vstd::seq_lib::to_multiset_contains(kept, kept[k]);
                    assert(kept.contains(kept[k]));
                }
                assert(played.to_multiset().count(kept[k]) > 0);
                vstd::seq_lib::to_multiset_contains(played, kept[k]);
                let j = choose|j: int| 0 <= j < played.len() && played[j] == kept[k];
                assert(played[j] == before[j].rendered(len, nb_frames));
            }
        }
        spans
    }
}

} // verus!
