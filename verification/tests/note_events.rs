use sequencer::midimessage::NoteEvent;
use sequencer::note_events::{close_note, remove_last_session, sort_by_tick_on};

fn ev(note_id: u8, tick_on: i32, tick_off: i32, record_session: i32, stamp_record: i32) -> NoteEvent {
    NoteEvent { note_id, tick_on, tick_off, record_session, stamp_record }
}

#[test]
fn sort_orders_by_start() {
    let mut events = vec![ev(1, 300, -1, 0, 0), ev(2, 100, -1, 0, 0), ev(3, 200, -1, 0, 0)];
    sort_by_tick_on(&mut events);
    let starts: Vec<i32> = events.iter().map(|e| e.tick_on).collect();
    assert_eq!(starts, vec![100, 200, 300]);
}

#[test]
fn sort_keeps_equal_starts_in_order() {
    let mut events = vec![
        ev(1, 50, -1, 0, 0),
        ev(2, 10, -1, 0, 0),
        ev(3, 50, -1, 0, 0),
        ev(4, 10, -1, 0, 0),
        ev(5, 50, -1, 0, 0),
        ev(6, 0, -1, 0, 0),
    ];
    sort_by_tick_on(&mut events);
    let ids: Vec<u8> = events.iter().map(|e| e.note_id).collect();
    assert_eq!(ids, vec![6, 2, 4, 1, 3, 5]);
}

#[test]
fn sort_agrees_with_the_stable_sort_of_the_standard_library() {
    let mut seed: u32 = 12345;
    for len in 0..40 {
        let mut events = Vec::new();
        for k in 0..len {
            seed = seed.wrapping_mul(1664525).wrapping_add(1013904223);
            let tick_on = ((seed >> 16) % 7) as i32 - 3;
            events.push(ev(k as u8, tick_on, -1, 0, k));
        }
        let mut expected = events.clone();
        expected.sort_by(|a, b| a.tick_on.partial_cmp(&b.tick_on).unwrap());
        sort_by_tick_on(&mut events);
        assert_eq!(events, expected);
    }
}

#[test]
fn sort_of_sorted_list_changes_nothing() {
    let sorted = vec![ev(1, 0, 5, 1, 0), ev(2, 0, 6, 1, 1), ev(3, 7, 9, 1, 2), ev(4, 7, 8, 2, 3)];
    let mut events = sorted.clone();
    sort_by_tick_on(&mut events);
    assert_eq!(events, sorted);
    let mut none: Vec<NoteEvent> = Vec::new();
    sort_by_tick_on(&mut none);
    assert!(none.is_empty());
}

#[test]
fn remove_last_session_takes_the_highest() {
    let mut events = vec![
        ev(1, 0, 10, 1, 0),
        ev(2, 5, 15, 3, 0),
        ev(3, 6, 16, 2, 0),
        ev(4, 7, 17, 3, 0),
        ev(5, 8, 18, 1, 0),
    ];
    remove_last_session(&mut events);
    let ids: Vec<u8> = events.iter().map(|e| e.note_id).collect();
    assert_eq!(ids, vec![1, 3, 5]);
    remove_last_session(&mut events);
    let ids: Vec<u8> = events.iter().map(|e| e.note_id).collect();
    assert_eq!(ids, vec![1, 5]);
    remove_last_session(&mut events);
    assert!(events.is_empty());
    remove_last_session(&mut events);
    assert!(events.is_empty());
}

#[test]
fn remove_last_session_of_loaded_notes() {
    let mut events = vec![ev(1, 0, 10, -1, 0), ev(2, 5, 15, -1, 0)];
    remove_last_session(&mut events);
    assert!(events.is_empty());
    let mut mixed = vec![ev(1, 0, 10, -1, 0), ev(2, 5, 15, 0, 0)];
    remove_last_session(&mut mixed);
    assert_eq!(mixed, vec![ev(1, 0, 10, -1, 0)]);
}

#[test]
fn close_note_sets_the_end() {
    let mut events = vec![ev(60, 0, 100, 1, 0), ev(62, 120, -1, 1, 5), ev(60, 240, -1, 1, 9)];
    close_note(&mut events, 60, 480, 7680);
    assert_eq!(
        events,
        vec![ev(60, 0, 100, 1, 0), ev(62, 120, -1, 1, 5), ev(60, 240, 480, 1, 9)]
    );
    close_note(&mut events, 60, 500, 7680);
    assert_eq!(events[2].tick_off, 480);
    close_note(&mut events, 61, 500, 7680);
    assert_eq!(events[1].tick_off, -1);
    close_note(&mut events, 62, 60, 7680);
    assert_eq!(events[1].tick_off, 60);
}

#[test]
fn close_note_takes_the_note_recorded_last() {
    // Two notes are pending for the same key; the one at the front of the
    // list was recorded after the other.
    let mut events = vec![ev(60, 0, -1, 1, 900), ev(60, 240, -1, 1, 100)];
    close_note(&mut events, 60, 480, 7680);
    assert_eq!(events, vec![ev(60, 0, 480, 1, 900), ev(60, 240, -1, 1, 100)]);
    // At equal stamps the one that stands last wins.
    let mut ties = vec![ev(60, 0, -1, 1, 7), ev(60, 240, -1, 1, 7), ev(60, 300, 400, 1, 7)];
    close_note(&mut ties, 60, 480, 7680);
    assert_eq!(ties[0].tick_off, -1);
    assert_eq!(ties[1].tick_off, 480);
}

#[test]
fn zero_duration_extension() {
    let nb_ticks = 7680;
    for t in [0, 60, 3000, 7559] {
        let mut events = vec![ev(60, t, -1, 1, 0)];
        close_note(&mut events, 60, t, nb_ticks);
        assert_eq!(events[0].tick_off, std::cmp::min(t + 120, nb_ticks - 1), "tick {}", t);
        assert_ne!(events[0].tick_off, events[0].tick_on);
    }
    let mut events = vec![ev(60, 7560, -1, 1, 0)];
    close_note(&mut events, 60, 7560, nb_ticks);
    assert_eq!(events[0].tick_off, 7679);
    let mut events = vec![ev(60, 7600, -1, 1, 0)];
    close_note(&mut events, 60, 7600, nb_ticks);
    assert_eq!(events[0].tick_off, 7679);
}
