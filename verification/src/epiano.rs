//! The key groups of the electric piano: which stretch of the wave table
//! plays a note at a velocity.

use vstd::prelude::*;

verus! {

/// Number of key groups of the wave table, the spare one at the end
/// included.
pub const NB_KEY_GROUPS: usize = 34;

/// Index of the last key group that has notes of its own; it takes every
/// note above the others.
pub const LAST_ROOT_GROUP: usize = 30;

/// Highest note of each key group that has notes of its own.  Such groups
/// stand at every third index; the two after each hold the same notes at
/// higher velocities.
pub const KGRP_HIGH: [i32; 34] = [
    39, 0, 0, 45, 0, 0, 51, 0, 0, 57, 0, 0, 63, 0, 0, 69, 0, 0, 75, 0, 0, 81, 0, 0, 87, 0, 0, 93, 0,
    0, 999, 0, 0, 0,
];

/// Root note of each key group that has notes of its own.
pub const KGRP_ROOT: [i32; 34] = [
    36, 0, 0, 43, 0, 0, 48, 0, 0, 55, 0, 0, 60, 0, 0, 67, 0, 0, 72, 0, 0, 79, 0, 0, 84, 0, 0, 91, 0,
    0, 96, 0, 0, 0,
];

/// First sample of each key group in the wave table.
pub const KGRP_POS: [i32; 34] = [
    0, 8477, 16249, 34566, 41385, 45761, 65212, 72898, 78627, 100388, 116298, 127662, 144114,
    152864, 173108, 192735, 204599, 218996, 233802, 248012, 265288, 282256, 293777, 312567, 330201,
    348890, 365676, 383662, 383662, 393373, 406046, 406046, 414487, 0,
];

/// Last sample of each key group in the wave table.
pub const KGRP_END: [i32; 34] = [
    8476, 16248, 34565, 41384, 45760, 65211, 72897, 78626, 100387, 116297, 127661, 144113, 152863,
    173107, 192734, 204598, 218995, 233801, 248011, 265287, 282255, 293776, 312566, 330200, 348889,
    365675, 383661, 393372, 393372, 406045, 414486, 414486, 422408, 0,
];

/// Length of the loop at the end of each key group.
pub const KGRP_LOOP: [i32; 34] = [
    4400, 4903, 6398, 3938, 1633, 5245, 2937, 2203, 6368, 10452, 5217, 3099, 4284, 3916, 2937, 4732,
    4733, 2285, 4098, 4099, 3609, 2446, 6278, 2283, 2689, 4370, 5225, 2811, 2811, 4522, 2306, 2306,
    2169, 0,
];

/// A key group: a stretch of the wave table and the notes it plays.
#[derive(Clone, Copy, Debug, PartialEq, Eq, Structural)]
pub struct KGRP {
    /// MIDI root note.
    pub root: i32,
    /// Highest note.
    pub high: i32,
    pub pos: i32,
    pub end: i32,
    pub loop_idx: i32,
}

/// The key group at index `i` of the wave table.
pub open spec fn key_group(i: int) -> KGRP {
    KGRP {
        root: KGRP_ROOT[i],
        high: KGRP_HIGH[i],
        pos: KGRP_POS[i],
        end: KGRP_END[i],
        loop_idx: KGRP_LOOP[i],
    }
}

impl KGRP {
    /// A key group with nothing in it.
    pub fn new() -> (group: KGRP)
        ensures
            group == (KGRP { root: 0, high: 0, pos: 0, end: 0, loop_idx: 0 }),
    {
        KGRP { root: 0, high: 0, pos: 0, end: 0, loop_idx: 0 }
    }
}

/// The key groups of the wave table.
pub fn key_groups() -> (groups: Vec<KGRP>)
    ensures
        groups@.len() == NB_KEY_GROUPS,
        forall|i: int| 0 <= i < NB_KEY_GROUPS ==> #[trigger] groups@[i] == key_group(i),
{
    let mut groups: Vec<KGRP> = Vec::new();
    let mut i: usize = 0;
    while i < NB_KEY_GROUPS
        invariant
            i <= NB_KEY_GROUPS,
            groups@.len() == i,
            forall|k: int| 0 <= k < i ==> #[trigger] groups@[k] == key_group(k),
        decreases NB_KEY_GROUPS - i,
    {
        groups.push(
            KGRP {
                root: KGRP_ROOT[i],
                high: KGRP_HIGH[i],
                pos: KGRP_POS[i],
                end: KGRP_END[i],
                loop_idx: KGRP_LOOP[i],
            },
        );
        i += 1;
    }
    groups
}

/// Velocity above which the second layer of a key group plays.
pub const MID_VELOCITY: i32 = 48;

/// Velocity above which the third layer of a key group plays.
pub const HIGH_VELOCITY: i32 = 80;

/// Whether the key group at index `k` has notes of its own and takes
/// `note`, on a piano whose groups are stretched upward by `size` notes.
pub open spec fn takes(k: int, note: int, size: int) -> bool {
    0 <= k <= LAST_ROOT_GROUP && k % 3 == 0 && note <= KGRP_HIGH[k] + size
}

/// The velocity layer: 0, 1 above `MID_VELOCITY`, 2 above `HIGH_VELOCITY`.
pub open spec fn layer_of(velocity: int) -> int {
    if velocity > HIGH_VELOCITY {
        2
    } else if velocity > MID_VELOCITY {
        1
    } else {
        0
    }
}

/// What plays a note: a key group and, in it, the stretch of the wave
/// table for the velocity.
#[derive(Clone, Copy, Debug, PartialEq, Eq, Structural)]
pub struct KeyChoice {
    /// Index of the key group that takes the note.
    pub group: usize,
    /// Its root note, from which the pitch is counted.
    pub root: i32,
    /// First sample to play.
    pub pos: i32,
    /// Last sample to play before going back by `loop_idx`.
    pub end: i32,
    pub loop_idx: i32,
}

/// The first key group that takes `note`.
pub fn find_key_group(note: i32, size: i32) -> (k: usize)
    requires
        size <= i32::MAX - 999,
        note <= 999 + size,
    ensures
        takes(k as int, note as int, size as int),
        forall|j: int| 0 <= j < k ==> !takes(j, note as int, size as int),
{
    let mut k: usize = 0;
    while note > KGRP_HIGH[k] + size
        invariant
            k <= LAST_ROOT_GROUP,
            k % 3 == 0,
            size <= i32::MAX - 999,
            note <= 999 + size,
            forall|j: int| 0 <= j < k ==> !takes(j, note as int, size as int),
        decreases LAST_ROOT_GROUP - k,
    {
        assert(k < LAST_ROOT_GROUP) by {
            assert(KGRP_HIGH[30] == 999);
        }
        k += 3;
    }
    k
}

/// What plays `note` at `velocity`: the first key group that takes the
/// note, and of its three layers the one for the velocity.
pub fn choose_key(note: i32, size: i32, velocity: i32) -> (choice: KeyChoice)
    requires
        size <= i32::MAX - 999,
        note <= 999 + size,
    ensures
        takes(choice.group as int, note as int, size as int),
        forall|j: int| 0 <= j < choice.group ==> !takes(j, note as int, size as int),
        choice.root == KGRP_ROOT[choice.group as int],
        choice.pos == KGRP_POS[choice.group + layer_of(velocity as int)],
        choice.end == KGRP_END[choice.group + layer_of(velocity as int)] - 1,
        choice.loop_idx == KGRP_LOOP[choice.group + layer_of(velocity as int)],
{
    let group = find_key_group(note, size);
    let mut k = group;
    if velocity > MID_VELOCITY {
        k += 1;
    }
    if velocity > HIGH_VELOCITY {
        k += 1;
    }
    assert(forall|i: int| 0 <= i < 34 ==> 0 <= #[trigger] KGRP_END[i] <= 422408);
    KeyChoice {
        group,
        root: KGRP_ROOT[group],
        pos: KGRP_POS[k],
        end: KGRP_END[k] - 1,
        loop_idx: KGRP_LOOP[k],
    }
}

/// Number of steps between two samples of the wave table.
pub const FRAC_ONE: i32 = 65536;

/// Where a voice stands in the wave table: at sample `pos` and `frac`
/// steps of `FRAC_ONE` towards the next, moving on by `delta` steps with
/// every frame, and going back by `loop_idx` samples past `end`.
#[derive(Clone, Copy, Debug, PartialEq, Eq, Structural)]
pub struct PlayHead {
    pub delta: i32,
    pub frac: i32,
    pub pos: i32,
    pub end: i32,
    pub loop_idx: i32,
}

impl PlayHead {
    /// The position is in order and one more frame can be played without
    /// leaving the range of the counters.
    pub open spec fn wf(self) -> bool {
        &&& 0 <= self.frac < FRAC_ONE
        &&& 0 <= self.delta
        &&& self.frac + self.delta <= i32::MAX
        &&& 0 <= self.pos
        &&& self.pos + (self.frac + self.delta) / (FRAC_ONE as int) <= i32::MAX
        &&& 0 <= self.loop_idx
    }

    /// Whether one more frame can be played.
    pub fn is_wf(&self) -> (b: bool)
        ensures
            b == self.wf(),
    {
        if self.frac < 0 || self.frac >= FRAC_ONE || self.delta < 0 || self.pos < 0
            || self.loop_idx < 0 {
            return false;
        }
        let steps: i64 = self.frac as i64 + self.delta as i64;
        steps <= i32::MAX as i64 && self.pos as i64 + steps / 65536 <= i32::MAX as i64
    }

    /// The head one frame later.
    pub open spec fn advanced(self) -> PlayHead {
        let steps = self.frac + self.delta;
        let pos = self.pos + steps / (FRAC_ONE as int);
        PlayHead {
            frac: (steps % (FRAC_ONE as int)) as i32,
            pos: if pos > self.end {
                (pos - self.loop_idx) as i32
            } else {
                pos as i32
            },
            ..self
        }
    }

    /// The head at the start of what `choice` plays, moving by `delta`.
    pub fn start(choice: KeyChoice, delta: i32) -> (head: PlayHead)
        ensures
            head == (PlayHead {
                delta,
                frac: 0,
                pos: choice.pos,
                end: choice.end,
                loop_idx: choice.loop_idx,
            }),
    {
        PlayHead { delta, frac: 0, pos: choice.pos, end: choice.end, loop_idx: choice.loop_idx }
    }

    /// Moves the head on by one frame.
    pub fn advance(&mut self)
        requires
            old(self).wf(),
        ensures
            *final(self) == old(self).advanced(),
            0 <= final(self).frac < FRAC_ONE,
    {
        let steps: i32 = self.frac + self.delta;
        let whole: i32 = steps >> 16;
        let part: i32 = steps & 0xFFFF;
        assert(whole == steps / 65536 && part == steps % 65536) by (bit_vector)
            requires
                0 <= steps,
                whole == steps >> 16,
                part == steps & 0xFFFF,
        ;
        self.frac = part;
        self.pos += whole;
        if self.pos > self.end {
            self.pos -= self.loop_idx;
        }
    }
}

/// The value between two neighbouring samples of the wave table, `frac`
/// steps of `FRAC_ONE` from the first towards the second, rounded down.
pub open spec fn between(w0: int, w1: int, frac: int) -> int {
    w0 + (frac * (w1 - w0)) / (FRAC_ONE as int)
}

/// Linear interpolation between two samples of the wave table.
pub fn interpolate(w0: i16, w1: i16, frac: i32) -> (value: i32)
    requires
        0 <= frac < FRAC_ONE,
    ensures
        value == between(w0 as int, w1 as int, frac as int),
{
    let diff: i32 = w1 as i32 - w0 as i32;
    assert(-65535 * 65535 <= frac * diff <= 65535 * 65535) by (nonlinear_arith)
        requires
            0 <= frac <= 65535,
            -65535 <= diff <= 65535,
    ;
    let product: i64 = frac as i64 * diff as i64;
    let scaled: i64 = product >> 16;
    assert(scaled == product / 65536) by (bit_vector)
        requires
            scaled == product >> 16,
    ;
    assert(-65536 <= scaled <= 65536) by {
        assert(-65535 * 65535 <= product <= 65535 * 65535);
    }
    w0 as i32 + scaled as i32
}

} // verus!
