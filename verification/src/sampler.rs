//! The sampler, as far as notes and channels go: which sample plays a
//! note, and how the samples of a file are laid out in memory.

use vstd::prelude::*;
use crate::preset::Preset;

verus! {

/// One sample of a sampler preset: the file and the notes it serves.
#[derive(Clone, Debug)]
pub struct SampleInfo {
    pub root_midi_note: u8,
    pub note_midi_min: u8,
    pub note_midi_max: u8,
    pub filepath: String,
    pub is_one_shot: bool,
}

impl SampleInfo {
    /// The root note lies in the range of notes served.
    pub open spec fn wf(&self) -> bool {
        self.note_midi_min <= self.root_midi_note <= self.note_midi_max
    }

    /// Whether the root note lies in the range of notes served.
    pub fn is_valid(&self) -> (b: bool)
        ensures
            b == self.wf(),
    {
        self.note_midi_min <= self.root_midi_note && self.root_midi_note <= self.note_midi_max
    }

    /// The note lies in the range of notes served.
    pub open spec fn serves(&self, midi_note: u8) -> bool {
        self.note_midi_min <= midi_note <= self.note_midi_max
    }

    /// Whether this sample plays `midi_note`.
    pub fn apply_to_note(&self, midi_note: u8) -> (b: bool)
        ensures
            b == self.serves(midi_note),
    {
        self.note_midi_min <= midi_note && midi_note <= self.note_midi_max
    }
}

/// The first sample of the list that plays `midi_note`.
pub fn find_sample(samples: &Vec<SampleInfo>, midi_note: u8) -> (found: Option<usize>)
    ensures
        match found {
            Some(i) => {
                &&& i < samples@.len()
                &&& samples@[i as int].serves(midi_note)
                &&& forall|j: int| 0 <= j < i ==> !(#[trigger] samples@[j]).serves(midi_note)
            },
            None => forall|j: int|
                0 <= j < samples@.len() ==> !(#[trigger] samples@[j]).serves(midi_note),
        },
{
    let n = samples.len();
    let mut i: usize = 0;
    while i < n
        invariant
            i <= n,
            n == samples@.len(),
            forall|j: int| 0 <= j < i ==> !(#[trigger] samples@[j]).serves(midi_note),
        decreases n - i,
    {
        if samples[i].apply_to_note(midi_note) {
            return Some(i);
        }
        i += 1;
    }
    None
}

/// A sampler preset: an envelope and the samples it is applied to.
#[derive(Clone, Debug)]
pub struct SamplerPreset<F> {
    pub id: usize,
    pub name: String,
    pub samples: Vec<SampleInfo>,
    pub attack: F,
    pub decay: F,
    pub sustain: F,
    pub release: F,
}

impl<F> Preset for SamplerPreset<F> {
    fn get_id(self) -> (id: usize)
        ensures
            id == self.id,
    {
        self.id
    }

    fn get_name(&self) -> (name: String)
        ensures
            name@ == self.name@,
    {
        self.name.clone()
    }
}

/// The sound of one sample: two channels of equal length, and the notes it
/// serves.
pub struct Sample<F> {
    pub sample_rate: F,
    pub left_channel: Vec<F>,
    pub right_channel: Vec<F>,
    pub size: usize,
    pub root_midi_note: u8,
    pub note_midi_min: u8,
    pub note_midi_max: u8,
    pub is_one_shot: bool,
}

/// The left channel of the samples of a file with `channels` channels:
/// all of them for one channel, every other one from the first for two.
pub open spec fn left_of<F>(samples: Seq<F>, channels: int) -> Seq<F> {
    if channels == 1 {
        samples
    } else if channels == 2 {
        Seq::new((samples.len() / 2) as nat, |i: int| samples[2 * i])
    } else {
        Seq::empty()
    }
}

/// The right channel: what the left channel is for one channel, every
/// other sample from the second for two.
pub open spec fn right_of<F>(samples: Seq<F>, channels: int) -> Seq<F> {
    if channels == 1 {
        samples
    } else if channels == 2 {
        Seq::new((samples.len() / 2) as nat, |i: int| samples[2 * i + 1])
    } else {
        Seq::empty()
    }
}

impl<F: Copy> Sample<F> {
    /// Both channels have `size` samples, and the root note lies in the
    /// range of notes served.
    pub open spec fn wf(&self) -> bool {
        &&& self.left_channel@.len() == self.size
        &&& self.right_channel@.len() == self.size
        &&& self.note_midi_min <= self.root_midi_note <= self.note_midi_max
    }

    /// A sample without sound, which plays once and serves note 0.
    pub fn empty(sample_rate: F) -> (sample: Sample<F>)
        ensures
            sample.wf(),
            sample.sample_rate == sample_rate,
            sample.left_channel@ == Seq::<F>::empty(),
            sample.right_channel@ == Seq::<F>::empty(),
            sample.size == 0,
            sample.root_midi_note == 0,
            sample.note_midi_min == 0,
            sample.note_midi_max == 0,
            sample.is_one_shot,
    {
        Sample {
            sample_rate,
            left_channel: Vec::new(),
            right_channel: Vec::new(),
            root_midi_note: 0,
            size: 0,
            note_midi_min: 0,
            note_midi_max: 0,
            is_one_shot: true,
        }
    }

    /// The sample that `sample_info` describes, from the interleaved
    /// samples of its file.
    pub fn load_sample(
        sample_info: &SampleInfo,
        channels: u16,
        samples: &Vec<F>,
        sample_rate: F,
    ) -> (sample: Sample<F>)
        requires
            channels == 2 ==> samples@.len() % 2 == 0,
        ensures
            sample_info.wf() ==> sample.wf(),
            sample.sample_rate == sample_rate,
            sample.left_channel@ == left_of(samples@, channels as int),
            sample.right_channel@ == right_of(samples@, channels as int),
            sample.size == sample.left_channel@.len(),
            sample.root_midi_note == sample_info.root_midi_note,
            sample.note_midi_min == sample_info.note_midi_min,
            sample.note_midi_max == sample_info.note_midi_max,
            sample.is_one_shot == sample_info.is_one_shot,
    {
        let mut left_channel: Vec<F> = Vec::new();
        let mut right_channel: Vec<F> = Vec::new();
        let n = samples.len();
        if channels == 1 {
            let mut i: usize = 0;
            while i < n
                invariant
                    i <= n,
                    n == samples@.len(),
                    left_channel@ == samples@.take(i as int),
                    right_channel@ == samples@.take(i as int),
                decreases n - i,
            {
                left_channel.push(samples[i]);
                right_channel.push(samples[i]);
                assert(samples@.take(i + 1) =~= samples@.take(i as int).push(samples@[i as int]));
                i += 1;
            }
            assert(samples@.take(n as int) =~= samples@);
        } else if channels == 2 {
            let mut i: usize = 0;
            while i < n
                invariant
                    i <= n,
                    n == samples@.len(),
                    n % 2 == 0,
                    i % 2 == 0,
                    left_channel@.len() == i / 2,
                    right_channel@.len() == i / 2,
                    forall|k: int| 0 <= k < i / 2 ==> left_channel@[k] == samples@[2 * k],
                    forall|k: int| 0 <= k < i / 2 ==> right_channel@[k] == samples@[2 * k + 1],
                decreases n - i,
            {
                left_channel.push(samples[i]);
                right_channel.push(samples[i + 1]);
                i += 2;
            }
            assert(left_channel@ =~= left_of(samples@, 2));
            assert(right_channel@ =~= right_of(samples@, 2));
        }
        Sample {
            sample_rate,
            size: left_channel.len(),
            left_channel,
            right_channel,
            root_midi_note: sample_info.root_midi_note,
            note_midi_min: sample_info.note_midi_min,
            note_midi_max: sample_info.note_midi_max,
            is_one_shot: sample_info.is_one_shot,
        }
    }
}

impl<F> Sample<F> {
    /// Whether this sample plays `midi_note`.
    pub fn apply_to_note(&self, midi_note: u8) -> (b: bool)
        ensures
            b == (self.note_midi_min <= midi_note <= self.note_midi_max),
    {
        self.note_midi_min <= midi_note && midi_note <= self.note_midi_max
    }
}

} // verus!
