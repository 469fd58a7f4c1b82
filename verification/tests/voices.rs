use sequencer::metronome::{BeepSpan, Metronome, MetronomeVoice, MAX_NOTES};
use sequencer::voice_pool::{mono_action, Voice, VoicePool};

#[derive(Clone, Copy, Debug, PartialEq)]
struct Tone {
    id: u32,
    level: f32,
}

impl Voice for Tone {
    fn ended(&self) -> bool {
        self.level <= 0.0
    }

    fn is_ended(&self) -> bool {
        self.ended()
    }
}

fn tones(n: u32) -> Vec<Tone> {
    (0..n).map(|id| Tone { id, level: 0.0 }).collect()
}

fn ids(voices: &[Tone]) -> Vec<u32> {
    let mut ids: Vec<u32> = voices.iter().map(|v| v.id).collect();
    ids.sort();
    ids
}

#[test]
fn new_pool_is_silent() {
    let pool = VoicePool::new(tones(8), 7);
    assert_eq!(pool.nb_actives_notes(), 0);
    assert_eq!(pool.idle.len(), 8);
    assert_eq!(pool.limit, 7);
}

#[test]
fn allocate_up_to_the_limit() {
    let mut pool = VoicePool::new(tones(32), 31);
    for k in 0..31 {
        let slot = pool.allocate();
        assert_eq!(slot, Some(k));
        pool.sounding[k].level = 1.0;
    }
    assert_eq!(pool.allocate(), None);
    assert_eq!(pool.nb_actives_notes(), 31);
    assert_eq!(pool.idle.len(), 1);
}

#[test]
fn allocate_stops_when_no_voice_is_left() {
    let mut pool = VoicePool::new(tones(2), 5);
    assert_eq!(pool.allocate(), Some(0));
    assert_eq!(pool.allocate(), Some(1));
    assert_eq!(pool.allocate(), None);
    assert_eq!(pool.nb_actives_notes(), 2);
}

#[test]
fn compact_takes_out_the_ended_voices() {
    let mut pool = VoicePool::new(tones(8), 8);
    for k in 0..6 {
        pool.allocate();
        pool.sounding[k].level = 1.0;
    }
    let sounding_ids: Vec<u32> = pool.sounding.iter().map(|v| v.id).collect();
    pool.sounding[0].level = 0.0;
    pool.sounding[2].level = 0.0;
    pool.sounding[5].level = 0.0;
    pool.compact();
    assert_eq!(pool.nb_actives_notes(), 3);
    assert!(pool.sounding.iter().all(|v| !v.is_ended()));
    assert_eq!(
        ids(&pool.sounding),
        ids(&[
            Tone { id: sounding_ids[1], level: 1.0 },
            Tone { id: sounding_ids[3], level: 1.0 },
            Tone { id: sounding_ids[4], level: 1.0 }
        ])
    );
    assert_eq!(pool.sounding.len() + pool.idle.len(), 8);
    let mut all = ids(&pool.sounding);
    all.extend(ids(&pool.idle));
    all.sort();
    assert_eq!(all, (0..8).collect::<Vec<u32>>());
}

#[test]
fn compact_by_swap_with_the_last() {
    let mut pool = VoicePool::new(Vec::new(), 8);
    pool.sounding = vec![
        Tone { id: 0, level: 0.0 },
        Tone { id: 1, level: 1.0 },
        Tone { id: 2, level: 0.0 },
        Tone { id: 3, level: 1.0 },
        Tone { id: 4, level: 0.0 },
    ];
    pool.compact();
    let order: Vec<u32> = pool.sounding.iter().map(|v| v.id).collect();
    assert_eq!(order, vec![3, 1]);
    let gone: Vec<u32> = pool.idle.iter().map(|v| v.id).collect();
    assert_eq!(gone, vec![0, 4, 2]);
}

#[test]
fn compact_of_all_or_none() {
    let mut pool = VoicePool::new(tones(4), 4);
    for k in 0..4 {
        pool.allocate();
        pool.sounding[k].level = 1.0;
    }
    pool.compact();
    assert_eq!(pool.nb_actives_notes(), 4);
    for k in 0..4 {
        pool.sounding[k].level = 0.0;
    }
    pool.compact();
    assert_eq!(pool.nb_actives_notes(), 0);
    assert_eq!(pool.idle.len(), 4);
    pool.compact();
    assert_eq!(pool.idle.len(), 4);
}

#[test]
fn sounding_voices_never_exceed_the_pools() {
    let mut pools =
        vec![VoicePool::new(tones(32), 31), VoicePool::new(tones(8), 7), VoicePool::new(tones(1), 1)];
    let capacity: usize = 32 + 8 + 1;
    let mut seed: u32 = 7;
    for _ in 0..2000 {
        seed = seed.wrapping_mul(1664525).wrapping_add(1013904223);
        let r = (seed >> 16) as usize;
        let pool = &mut pools[r % 3];
        match (r / 3) % 3 {
            0 | 1 => {
                if let Some(slot) = pool.allocate() {
                    pool.sounding[slot].level = 1.0;
                }
            }
            _ => {
                if !pool.sounding.is_empty() {
                    let k = (r / 9) % pool.sounding.len();
                    pool.sounding[k].level = 0.0;
                }
                pool.compact();
            }
        }
        let sounding: usize = pools.iter().map(|p| p.nb_actives_notes()).sum();
        assert!(sounding <= capacity);
        assert!(sounding <= 31 + 7 + 1);
        for pool in pools.iter() {
            assert!(pool.nb_actives_notes() <= pool.limit);
        }
        assert_eq!(pools[0].sounding.len() + pools[0].idle.len(), 32);
        assert_eq!(pools[1].sounding.len() + pools[1].idle.len(), 8);
        assert_eq!(pools[2].sounding.len() + pools[2].idle.len(), 1);
    }
}

#[test]
fn metronome_voice_plays_through_its_buffer() {
    let mut voice = MetronomeVoice { active: true, buffer_index: 0, start_bar: true };
    let span = voice.render_next_block(300, 128, 2);
    assert_eq!(span, BeepSpan { start_bar: true, first: 0, count: 128 });
    assert_eq!(voice.buffer_index, 128);
    assert!(!voice.is_ended());
    let span = voice.render_next_block(300, 128, 2);
    assert_eq!(span, BeepSpan { start_bar: true, first: 128, count: 128 });
    assert!(!voice.is_ended());
    let span = voice.render_next_block(300, 128, 2);
    assert_eq!(span, BeepSpan { start_bar: true, first: 256, count: 44 });
    assert_eq!(voice.buffer_index, 384);
    assert!(voice.is_ended());
}

#[test]
fn metronome_voice_ends_only_past_the_buffer() {
    let mut voice = MetronomeVoice { active: true, buffer_index: 0, start_bar: false };
    let span = voice.render_next_block(256, 256, 2);
    assert_eq!(span, BeepSpan { start_bar: false, first: 0, count: 256 });
    assert!(!voice.is_ended());
    let span = voice.render_next_block(256, 0, 2);
    assert_eq!(span.count, 0);
    assert!(!voice.is_ended());
    let span = voice.render_next_block(256, 1, 2);
    assert_eq!(span, BeepSpan { start_bar: false, first: 256, count: 0 });
    assert!(voice.is_ended());
}

#[test]
fn metronome_voice_frames_of_a_block() {
    let mut voice = MetronomeVoice::new();
    assert!(voice.active);
    assert_eq!(voice.buffer_index, 0);
    let span = voice.render_next_block(1000, 5, 1);
    assert_eq!(span.count, 3);
    assert_eq!(voice.buffer_index, 3);
    let span = voice.render_next_block(1000, 4, 1);
    assert_eq!(span.count, 2);
    let span = voice.render_next_block(1000, 3, 2);
    assert_eq!(span.count, 3);
}

#[test]
fn metronome_keeps_one_voice_spare() {
    let mut metronome = Metronome::new(1920);
    assert_eq!(MAX_NOTES, 8);
    for k in 0..10 {
        metronome.bip(k % 4 == 0);
    }
    assert_eq!(metronome.pool.nb_actives_notes(), 7);
    let bars: Vec<bool> = metronome.pool.sounding.iter().map(|v| v.start_bar).collect();
    assert_eq!(bars, vec![true, false, false, false, true, false, false]);
    assert!(metronome.pool.sounding.iter().all(|v| v.active && v.buffer_index == 0));
}

#[test]
fn metronome_plays_and_prunes() {
    let mut metronome = Metronome::new(300);
    metronome.bip(true);
    let spans = metronome.process(128, 2);
    assert_eq!(spans, vec![BeepSpan { start_bar: true, first: 0, count: 128 }]);
    metronome.bip(false);
    let spans = metronome.process(128, 2);
    assert_eq!(
        spans,
        vec![
            BeepSpan { start_bar: true, first: 128, count: 128 },
            BeepSpan { start_bar: false, first: 0, count: 128 }
        ]
    );
    assert_eq!(metronome.pool.nb_actives_notes(), 2);
    let spans = metronome.process(128, 2);
    assert_eq!(
        spans,
        vec![
            BeepSpan { start_bar: true, first: 256, count: 44 },
            BeepSpan { start_bar: false, first: 128, count: 128 }
        ]
    );
    assert_eq!(metronome.pool.nb_actives_notes(), 1);
    assert!(!metronome.pool.sounding[0].start_bar);
    let spans = metronome.process(128, 2);
    assert_eq!(spans, vec![BeepSpan { start_bar: false, first: 256, count: 44 }]);
    assert_eq!(metronome.pool.nb_actives_notes(), 0);
    assert!(metronome.process(128, 2).is_empty());
    assert_eq!(metronome.pool.sounding.len() + metronome.pool.idle.len(), 8);
}

#[test]
fn metronome_check() {
    let mut metronome = Metronome::new(300);
    assert!(metronome.is_wf());
    metronome.bip(true);
    assert!(metronome.is_wf());
    metronome.process(128, 2);
    assert!(metronome.is_wf());
    metronome.pool.sounding[0].buffer_index = 301;
    assert!(!metronome.is_wf());
    metronome.pool.sounding[0].buffer_index = 300;
    assert!(metronome.is_wf());
    metronome.pool.sounding[0].active = false;
    assert!(!metronome.is_wf());
    metronome.pool.sounding[0].active = true;
    metronome.pool.limit = 8;
    assert!(!metronome.is_wf());
    metronome.pool.limit = 7;
    metronome.pool.idle.pop();
    assert!(!metronome.is_wf());
}

#[test]
fn one_note_at_a_time() {
    assert!(mono_action(true, true));
    assert!(!mono_action(true, false));
    assert!(!mono_action(false, true));
    assert!(!mono_action(false, false));
}

#[test]
fn first_voice_of_a_pool() {
    let mut pool = VoicePool::new(tones(2), 2);
    assert!(!pool.first_sounds());
    pool.allocate();
    assert!(!pool.first_sounds());
    pool.sounding[0].level = 1.0;
    assert!(pool.first_sounds());
    pool.allocate();
    pool.sounding[1].level = 1.0;
    pool.sounding[0].level = 0.0;
    assert!(!pool.first_sounds());
    pool.compact();
    assert!(pool.first_sounds());
}
