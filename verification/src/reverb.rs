//! The delay lines of the reverb: how long each one is at a sample rate.
//!
//! Each channel has eight comb filters and four all-pass filters.  Their
//! lengths are given for 44.1 kHz and grow in proportion to the sample
//! rate; the right channel is 23 samples longer throughout, which spreads
//! the sound.

use vstd::prelude::*;

verus! {

/// Comb filters of each channel.
pub const NB_COMBS_FILTERS: usize = 8;

/// All-pass filters of each channel.
pub const NB_ALL_PASS_FILTERS: usize = 4;

/// Channels of the reverb.
pub const NB_CHANNELS: usize = 2;

/// Lengths of the comb filters of the left channel at the reference rate.
pub const COMB_TUNINGS: [i32; 8] = [1116, 1188, 1277, 1356, 1422, 1491, 1557, 1617];

/// Lengths of the all-pass filters of the left channel at the reference
/// rate.
pub const ALL_PASS_TUNINGS: [i32; 4] = [556, 441, 341, 225];

/// What the right channel adds to each length.
pub const STEREO_SPREAD: i32 = 23;

/// The sample rate for which the tunings are given.
pub const REFERENCE_RATE: i32 = 44100;

/// Highest sample rate for which every length can be computed in 32 bits.
pub const MAX_SAMPLE_RATE: i32 = 1_309_441;

/// The tuning of a channel: the left one as given, the right one longer by
/// the spread.
pub open spec fn channel_tuning(tuning: int, channel: int) -> int {
    if channel == 0 {
        tuning
    } else {
        tuning + STEREO_SPREAD
    }
}

/// Length of a delay line at `sample_rate`.
pub open spec fn scaled(sample_rate: int, tuning: int) -> int {
    sample_rate * tuning / (REFERENCE_RATE as int)
}

/// Length of a delay line with the given tuning at `sample_rate`.
pub fn buffer_size(sample_rate: i32, tuning: i32) -> (size: usize)
    requires
        0 <= sample_rate,
        0 <= tuning,
        sample_rate * tuning <= i32::MAX,
    ensures
        size == scaled(sample_rate as int, tuning as int),
{
    assert(0 <= sample_rate * tuning) by (nonlinear_arith)
        requires
            0 <= sample_rate,
            0 <= tuning,
    ;
    ((sample_rate * tuning) / REFERENCE_RATE) as usize
}

/// Lengths of the comb filters of one channel at `sample_rate`.
pub fn comb_sizes(sample_rate: i32, channel: usize) -> (sizes: Vec<usize>)
    requires
        0 <= sample_rate <= MAX_SAMPLE_RATE,
        channel < NB_CHANNELS,
    ensures
        sizes@.len() == NB_COMBS_FILTERS,
        forall|i: int|
            0 <= i < NB_COMBS_FILTERS ==> #[trigger] sizes@[i] == scaled(
                sample_rate as int,
                channel_tuning(COMB_TUNINGS[i] as int, channel as int),
            ),
{
    let mut sizes: Vec<usize> = Vec::new();
    let mut i: usize = 0;
    while i < NB_COMBS_FILTERS
        invariant
            i <= NB_COMBS_FILTERS,
            0 <= sample_rate <= MAX_SAMPLE_RATE,
            channel < NB_CHANNELS,
            sizes@.len() == i,
            forall|k: int|
                0 <= k < i ==> #[trigger] sizes@[k] == scaled(
                    sample_rate as int,
                    channel_tuning(COMB_TUNINGS[k] as int, channel as int),
                ),
        decreases NB_COMBS_FILTERS - i,
    {
        assert(forall|k: int| 0 <= k < 8 ==> 0 <= #[trigger] COMB_TUNINGS[k] <= 1617);
        let tuning = if channel == 0 {
            COMB_TUNINGS[i]
        } else {
            COMB_TUNINGS[i] + STEREO_SPREAD
        };
        assert(sample_rate * tuning <= i32::MAX) by (nonlinear_arith)
            requires
                0 <= sample_rate <= 1_309_441,
                0 <= tuning <= 1640,
        ;
        sizes.push(buffer_size(sample_rate, tuning));
        i += 1;
    }
    sizes
}

/// Lengths of the all-pass filters of one channel at `sample_rate`.
pub fn all_pass_sizes(sample_rate: i32, channel: usize) -> (sizes: Vec<usize>)
    requires
        0 <= sample_rate <= MAX_SAMPLE_RATE,
        channel < NB_CHANNELS,
    ensures
        sizes@.len() == NB_ALL_PASS_FILTERS,
        forall|i: int|
            0 <= i < NB_ALL_PASS_FILTERS ==> #[trigger] sizes@[i] == scaled(
                sample_rate as int,
                channel_tuning(ALL_PASS_TUNINGS[i] as int, channel as int),
            ),
{
    let mut sizes: Vec<usize> = Vec::new();
    let mut i: usize = 0;
    while i < NB_ALL_PASS_FILTERS
        invariant
            i <= NB_ALL_PASS_FILTERS,
            0 <= sample_rate <= MAX_SAMPLE_RATE,
            channel < NB_CHANNELS,
            sizes@.len() == i,
            forall|k: int|
                0 <= k < i ==> #[trigger] sizes@[k] == scaled(
                    sample_rate as int,
                    channel_tuning(ALL_PASS_TUNINGS[k] as int, channel as int),
                ),
        decreases NB_ALL_PASS_FILTERS - i,
    {
        assert(forall|k: int| 0 <= k < 4 ==> 0 <= #[trigger] ALL_PASS_TUNINGS[k] <= 556);
        let tuning = if channel == 0 {
            ALL_PASS_TUNINGS[i]
        } else {
            ALL_PASS_TUNINGS[i] + STEREO_SPREAD
        };
        assert(sample_rate * tuning <= i32::MAX) by (nonlinear_arith)
            requires
                0 <= sample_rate <= 1_309_441,
                0 <= tuning <= 1640,
        ;
        sizes.push(buffer_size(sample_rate, tuning));
        i += 1;
    }
    sizes
}

} // verus!
