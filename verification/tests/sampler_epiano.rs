use sequencer::epiano::{
    choose_key, find_key_group, interpolate, key_groups, KeyChoice, PlayHead, FRAC_ONE, KGRP,
    KGRP_END, KGRP_HIGH, KGRP_LOOP, KGRP_POS, KGRP_ROOT, NB_KEY_GROUPS,
};
use sequencer::reverb::{
    all_pass_sizes, buffer_size, comb_sizes, ALL_PASS_TUNINGS, COMB_TUNINGS, MAX_SAMPLE_RATE,
    STEREO_SPREAD,
};
use sequencer::preset::Preset;
use sequencer::sampler::{find_sample, Sample, SampleInfo, SamplerPreset};

fn info(root: u8, min: u8, max: u8) -> SampleInfo {
    SampleInfo {
        root_midi_note: root,
        note_midi_min: min,
        note_midi_max: max,
        filepath: format!("{}.wav", root),
        is_one_shot: false,
    }
}

#[test]
fn sample_serves_its_range() {
    let sample = info(60, 55, 65);
    assert!(sample.is_valid());
    assert!(sample.apply_to_note(55));
    assert!(sample.apply_to_note(60));
    assert!(sample.apply_to_note(65));
    assert!(!sample.apply_to_note(54));
    assert!(!sample.apply_to_note(66));
    assert!(!info(70, 55, 65).is_valid());
    assert!(!info(50, 55, 65).is_valid());
    assert!(info(55, 55, 55).is_valid());
}

#[test]
fn first_matching_sample_plays() {
    let samples = vec![info(40, 36, 47), info(52, 48, 59), info(55, 50, 70), info(64, 60, 71)];
    assert_eq!(find_sample(&samples, 36), Some(0));
    assert_eq!(find_sample(&samples, 49), Some(1));
    assert_eq!(find_sample(&samples, 55), Some(1));
    assert_eq!(find_sample(&samples, 60), Some(2));
    assert_eq!(find_sample(&samples, 71), Some(3));
    assert_eq!(find_sample(&samples, 72), None);
    assert_eq!(find_sample(&samples, 0), None);
    assert_eq!(find_sample(&Vec::new(), 60), None);
}

#[test]
fn mono_file_fills_both_channels() {
    let sample = Sample::load_sample(&info(60, 55, 65), 1, &vec![0.1f32, 0.2, 0.3], 48000.0f32);
    assert_eq!(sample.left_channel, vec![0.1, 0.2, 0.3]);
    assert_eq!(sample.right_channel, vec![0.1, 0.2, 0.3]);
    assert_eq!(sample.size, 3);
    assert_eq!(sample.sample_rate, 48000.0);
    assert_eq!(sample.root_midi_note, 60);
    assert_eq!(sample.note_midi_min, 55);
    assert_eq!(sample.note_midi_max, 65);
    assert!(!sample.is_one_shot);
    assert!(sample.apply_to_note(65));
    assert!(!sample.apply_to_note(66));
}

#[test]
fn stereo_file_is_split() {
    let samples = vec![1.0f32, -1.0, 2.0, -2.0, 3.0, -3.0];
    let sample = Sample::load_sample(&info(60, 55, 65), 2, &samples, 44100.0f32);
    assert_eq!(sample.left_channel, vec![1.0, 2.0, 3.0]);
    assert_eq!(sample.right_channel, vec![-1.0, -2.0, -3.0]);
    assert_eq!(sample.size, 3);
}

#[test]
fn other_channel_counts_give_no_sound() {
    let sample = Sample::load_sample(&info(60, 55, 65), 6, &vec![1.0f32; 12], 44100.0f32);
    assert!(sample.left_channel.is_empty());
    assert!(sample.right_channel.is_empty());
    assert_eq!(sample.size, 0);
    let empty = Sample::empty(48000.0f32);
    assert_eq!(empty.size, 0);
    assert!(empty.is_one_shot);
    assert!(empty.apply_to_note(0));
    assert!(!empty.apply_to_note(1));
}

#[test]
fn sampler_preset_is_a_preset() {
    let preset = SamplerPreset {
        id: 4,
        name: "Daz-Kit".to_string(),
        samples: vec![info(60, 55, 65)],
        attack: 0.0f32,
        decay: 0.0,
        sustain: 1.0,
        release: 0.4,
    };
    assert_eq!(preset.get_name(), "Daz-Kit");
    assert_eq!(preset.get_id(), 4);
}

#[test]
fn key_group_table() {
    let groups = key_groups();
    assert_eq!(groups.len(), 34);
    assert_eq!(NB_KEY_GROUPS, 34);
    assert_eq!(groups[0], KGRP { root: 36, high: 39, pos: 0, end: 8476, loop_idx: 4400 });
    assert_eq!(groups[4], KGRP { root: 0, high: 0, pos: 41385, end: 45760, loop_idx: 1633 });
    assert_eq!(groups[12], KGRP { root: 60, high: 63, pos: 144114, end: 152863, loop_idx: 4284 });
    assert_eq!(groups[30], KGRP { root: 96, high: 999, pos: 406046, end: 414486, loop_idx: 2306 });
    assert_eq!(groups[32], KGRP { root: 0, high: 0, pos: 414487, end: 422408, loop_idx: 2169 });
    assert_eq!(groups[33], KGRP::new());
    for i in 0..34 {
        assert_eq!(groups[i].root, KGRP_ROOT[i]);
        assert_eq!(groups[i].high, KGRP_HIGH[i]);
        assert_eq!(groups[i].pos, KGRP_POS[i]);
        assert_eq!(groups[i].end, KGRP_END[i]);
        assert_eq!(groups[i].loop_idx, KGRP_LOOP[i]);
    }
    // Apart from the two pairs that share a stretch, the stretches follow
    // each other without a gap.
    for i in 0..32 {
        if i != 27 && i != 30 {
            let next = if i == 26 || i == 29 { KGRP_POS[i + 2] } else { KGRP_POS[i + 1] };
            if i != 28 && i != 31 {
                assert_eq!(next, KGRP_END[i] + 1, "group {}", i);
            }
        }
    }
}

#[test]
fn key_group_of_a_note() {
    assert_eq!(find_key_group(0, 0), 0);
    assert_eq!(find_key_group(39, 0), 0);
    assert_eq!(find_key_group(40, 0), 3);
    assert_eq!(find_key_group(45, 0), 3);
    assert_eq!(find_key_group(60, 0), 12);
    assert_eq!(find_key_group(63, 0), 12);
    assert_eq!(find_key_group(64, 0), 15);
    assert_eq!(find_key_group(93, 0), 27);
    assert_eq!(find_key_group(94, 0), 30);
    assert_eq!(find_key_group(127, 0), 30);
    assert_eq!(find_key_group(255, 0), 30);
}

#[test]
fn key_groups_stretch_with_the_size() {
    assert_eq!(find_key_group(40, 1), 0);
    assert_eq!(find_key_group(41, 1), 3);
    assert_eq!(find_key_group(39, -1), 3);
    assert_eq!(find_key_group(45, 6), 0);
    assert_eq!(find_key_group(34, -6), 3);
    assert_eq!(find_key_group(0, -999), 30);
}

#[test]
fn velocity_picks_the_layer() {
    let soft = choose_key(60, 0, 48);
    assert_eq!(
        soft,
        KeyChoice { group: 12, root: 60, pos: 144114, end: 152862, loop_idx: 4284 }
    );
    let mid = choose_key(60, 0, 49);
    assert_eq!(mid, KeyChoice { group: 12, root: 60, pos: 152864, end: 173106, loop_idx: 3916 });
    assert_eq!(choose_key(60, 0, 80), mid);
    let hard = choose_key(60, 0, 81);
    assert_eq!(hard, KeyChoice { group: 12, root: 60, pos: 173108, end: 192733, loop_idx: 2937 });
    assert_eq!(choose_key(60, 0, 127), hard);
    assert_eq!(choose_key(61, 0, 127).root, 60);
    let top = choose_key(127, 0, 127);
    assert_eq!(top, KeyChoice { group: 30, root: 96, pos: 414487, end: 422407, loop_idx: 2169 });
}

#[test]
fn play_head_steps_through_the_table() {
    let choice = choose_key(60, 0, 10);
    let mut head = PlayHead::start(choice, 65536 + 16384);
    assert_eq!(head, PlayHead { delta: 81920, frac: 0, pos: 144114, end: 152862, loop_idx: 4284 });
    assert!(head.is_wf());
    head.advance();
    assert_eq!((head.pos, head.frac), (144115, 16384));
    head.advance();
    assert_eq!((head.pos, head.frac), (144116, 32768));
    head.advance();
    head.advance();
    assert_eq!((head.pos, head.frac), (144119, 0));
    assert_eq!(FRAC_ONE, 65536);
}

#[test]
fn play_head_goes_back_past_the_end() {
    let mut head = PlayHead { delta: 3 * 65536, frac: 65535, pos: 98, end: 100, loop_idx: 40 };
    head.advance();
    assert_eq!((head.pos, head.frac), (61, 65535));
    let mut head = PlayHead { delta: 65536, frac: 0, pos: 99, end: 100, loop_idx: 40 };
    head.advance();
    assert_eq!(head.pos, 100);
    head.advance();
    assert_eq!(head.pos, 61);
    let mut still = PlayHead { delta: 0, frac: 7, pos: 5, end: 100, loop_idx: 40 };
    still.advance();
    assert_eq!(still, PlayHead { delta: 0, frac: 7, pos: 5, end: 100, loop_idx: 40 });
}

#[test]
fn play_head_knows_its_limits() {
    assert!(!PlayHead { delta: 1, frac: 65536, pos: 0, end: 0, loop_idx: 0 }.is_wf());
    assert!(!PlayHead { delta: -1, frac: 0, pos: 0, end: 0, loop_idx: 0 }.is_wf());
    assert!(!PlayHead { delta: 1, frac: -1, pos: 0, end: 0, loop_idx: 0 }.is_wf());
    assert!(!PlayHead { delta: 1, frac: 0, pos: -1, end: 0, loop_idx: 0 }.is_wf());
    assert!(!PlayHead { delta: 1, frac: 0, pos: 0, end: 0, loop_idx: -1 }.is_wf());
    assert!(!PlayHead { delta: i32::MAX, frac: 1, pos: 0, end: 0, loop_idx: 0 }.is_wf());
    assert!(PlayHead { delta: i32::MAX - 1, frac: 1, pos: 0, end: 0, loop_idx: 0 }.is_wf());
    assert!(!PlayHead { delta: 65536, frac: 0, pos: i32::MAX, end: 0, loop_idx: 0 }.is_wf());
    assert!(PlayHead { delta: 65535, frac: 0, pos: i32::MAX, end: 0, loop_idx: 0 }.is_wf());
}

#[test]
fn interpolation_between_samples() {
    assert_eq!(interpolate(100, 200, 0), 100);
    assert_eq!(interpolate(100, 200, 32768), 150);
    assert_eq!(interpolate(100, 200, 65535), 199);
    assert_eq!(interpolate(200, 100, 32768), 150);
    assert_eq!(interpolate(200, 100, 1), 199);
    assert_eq!(interpolate(0, -1, 1), -1);
    assert_eq!(interpolate(-3, -3, 40000), -3);
    assert_eq!(interpolate(i16::MIN, i16::MAX, 65535), 32766);
    assert_eq!(interpolate(i16::MAX, i16::MIN, 65535), -32768);
    assert_eq!(interpolate(i16::MAX, i16::MIN, 32768), -1);
}

#[test]
fn reverb_lengths_at_the_reference_rate() {
    assert_eq!(comb_sizes(44100, 0), vec![1116, 1188, 1277, 1356, 1422, 1491, 1557, 1617]);
    assert_eq!(comb_sizes(44100, 1), vec![1139, 1211, 1300, 1379, 1445, 1514, 1580, 1640]);
    assert_eq!(all_pass_sizes(44100, 0), vec![556, 441, 341, 225]);
    assert_eq!(all_pass_sizes(44100, 1), vec![579, 464, 364, 248]);
    assert_eq!(COMB_TUNINGS[0], 1116);
    assert_eq!(ALL_PASS_TUNINGS[3], 225);
    assert_eq!(STEREO_SPREAD, 23);
}

#[test]
fn reverb_lengths_grow_with_the_rate() {
    assert_eq!(comb_sizes(48000, 0), vec![1214, 1293, 1389, 1475, 1547, 1622, 1694, 1760]);
    assert_eq!(all_pass_sizes(48000, 1), vec![630, 505, 396, 269]);
    assert_eq!(buffer_size(88200, 1116), 2232);
    assert_eq!(buffer_size(22050, 1117), 558);
    assert_eq!(buffer_size(0, 1116), 0);
    assert_eq!(comb_sizes(0, 1), vec![0; 8]);
    assert_eq!(comb_sizes(MAX_SAMPLE_RATE, 1)[7], 48695);
}
