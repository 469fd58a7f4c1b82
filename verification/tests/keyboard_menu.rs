use sequencer::keyboard::{key_down, key_note, key_up, Key, UiAction, KEY_VELOCITY};
use sequencer::menu::{Action, Menu, ProjectFile, ID_MENU_MAIN, ID_MENU_PROJECT};
use sequencer::midimessage::MidiMessage;
use sequencer::sequencer_data::Message;

fn note_keys() -> [Key; 12] {
    [Key::A, Key::Z, Key::E, Key::R, Key::T, Key::Y, Key::U, Key::I, Key::O, Key::P, Key::Q, Key::S]
}

#[test]
fn note_keys_go_up_by_semitones() {
    for (i, key) in note_keys().iter().enumerate() {
        assert_eq!(key_note(*key, 52), Some(52 + i as u8));
        assert_eq!(key_note(*key, 54), Some(54 + i as u8));
    }
    assert_eq!(key_note(Key::A, 52), Some(52));
    assert_eq!(key_note(Key::P, 52), Some(61));
    assert_eq!(key_note(Key::Q, 52), Some(62));
    assert_eq!(key_note(Key::S, 52), Some(63));
}

#[test]
fn other_keys_play_no_note() {
    for key in [Key::Space, Key::Up, Key::W, Key::B, Key::Backspace, Key::Escape, Key::Other] {
        assert_eq!(key_note(key, 52), None);
    }
}

#[test]
fn notes_stop_at_the_highest() {
    assert_eq!(key_note(Key::A, 127), Some(127));
    assert_eq!(key_note(Key::Z, 127), None);
    assert_eq!(key_note(Key::S, 116), Some(127));
    assert_eq!(key_note(Key::S, 117), None);
    assert_eq!(key_note(Key::A, 200), None);
    assert_eq!(key_note(Key::S, 255), None);
}

#[test]
fn key_presses() {
    assert!(matches!(key_down::<f32>(Key::Escape, 52), UiAction::Quit));
    assert!(matches!(key_down::<f32>(Key::Space, 52), UiAction::Broadcast(Message::PlayStop)));
    match key_down::<f32>(Key::U, 54) {
        UiAction::Midi(m) => assert_eq!(m, MidiMessage { first: 0x9c, second: 60, third: 127 }),
        _ => panic!("a note key must play"),
    }
    for key in [Key::Up, Key::Down, Key::W, Key::X, Key::B, Key::N, Key::Backspace, Key::Other] {
        assert!(matches!(key_down::<f32>(key, 52), UiAction::Nothing));
    }
    assert!(matches!(key_down::<f32>(Key::S, 120), UiAction::Nothing));
    assert_eq!(KEY_VELOCITY, 127);
}

#[test]
fn key_releases() {
    let up = |key| key_up::<f32>(key, 52, false, true);
    assert!(matches!(up(Key::Escape), UiAction::Quit));
    assert!(matches!(up(Key::Backspace), UiAction::Broadcast(Message::UndoLastSession)));
    assert!(matches!(up(Key::Up), UiAction::Broadcast(Message::NextInstrument)));
    assert!(matches!(up(Key::Down), UiAction::Broadcast(Message::PreviousInstrument)));
    assert!(matches!(up(Key::Left), UiAction::Broadcast(Message::PreviousPreset)));
    assert!(matches!(up(Key::Right), UiAction::Broadcast(Message::NextPreset)));
    assert!(matches!(up(Key::W), UiAction::Broadcast(Message::SetIsRecording(true))));
    assert!(matches!(up(Key::X), UiAction::Broadcast(Message::SetMetronomeActive(false))));
    assert!(matches!(up(Key::C), UiAction::Broadcast(Message::PreviousQuantize)));
    assert!(matches!(up(Key::V), UiAction::Broadcast(Message::NextQuantize)));
    assert!(matches!(up(Key::B), UiAction::TempoStep { faster: false }));
    assert!(matches!(up(Key::N), UiAction::TempoStep { faster: true }));
    assert!(matches!(up(Key::Space), UiAction::Nothing));
    assert!(matches!(up(Key::Other), UiAction::Nothing));
    match up(Key::A) {
        UiAction::Midi(m) => assert_eq!(m, MidiMessage { first: 0x8c, second: 52, third: 127 }),
        _ => panic!("a note key must stop its note"),
    }
}

#[test]
fn toggles_follow_the_flags() {
    assert!(matches!(
        key_up::<f32>(Key::W, 52, true, true),
        UiAction::Broadcast(Message::SetIsRecording(false))
    ));
    assert!(matches!(
        key_up::<f32>(Key::X, 52, true, false),
        UiAction::Broadcast(Message::SetMetronomeActive(true))
    ));
}

#[test]
fn main_menu() {
    let menu = Menu::main();
    assert_eq!(menu.current, 0);
    assert!(!menu.is_opened);
    assert_eq!(menu.items.len(), 2);
    assert_eq!(menu.items[0].name, "Open Project");
    assert_eq!(menu.items[0].value, ">");
    assert!(matches!(menu.items[0].action, Action::OpenMenu(ID_MENU_PROJECT)));
    assert_eq!(menu.items[1].name, "Save");
    assert_eq!(menu.items[1].value, ">");
    assert!(matches!(menu.items[1].action, Action::SaveProject));
    assert_eq!(ID_MENU_MAIN, 0);
    assert_eq!(ID_MENU_PROJECT, 1);
}

#[test]
fn menu_moves_around() {
    let mut menu = Menu::main();
    menu.up();
    assert_eq!(menu.current, 1);
    menu.up();
    assert_eq!(menu.current, 0);
    menu.down();
    assert_eq!(menu.current, 1);
    menu.down();
    assert_eq!(menu.current, 0);
    menu.current = 9;
    menu.down();
    assert_eq!(menu.current, 0);
    menu.current = 9;
    menu.up();
    assert_eq!(menu.current, 8);
}

#[test]
fn menu_enter_gives_the_current_action() {
    let mut menu = Menu::main();
    assert!(matches!(menu.enter(), Action::OpenMenu(1)));
    menu.down();
    assert!(matches!(menu.enter(), Action::SaveProject));
    assert_eq!(menu.current, 1);
    assert_eq!(menu.items.len(), 2);
}

fn file(name: &str, extension: Option<&str>) -> ProjectFile {
    ProjectFile {
        file_name: name.to_string(),
        path: format!("./saves/{}", name),
        extension: extension.map(|e| e.to_string()),
    }
}

#[test]
fn projects_menu_lists_the_project_files() {
    let mut menu = Menu::projects(vec![
        file("one.daz", Some("daz")),
        file("notes.txt", Some("txt")),
        file("README", None),
        file("two.daz", Some("daz")),
        file("upper.DAZ", Some("DAZ")),
        file("three.dazz", Some("dazz")),
    ]);
    assert_eq!(menu.current, 0);
    assert!(!menu.is_opened);
    assert_eq!(menu.items.len(), 2);
    assert_eq!(menu.items[0].name, "one.daz");
    assert_eq!(menu.items[0].value, "./saves/one.daz");
    assert_eq!(menu.items[1].name, "two.daz");
    menu.down();
    match menu.enter() {
        Action::LoadProject(path) => assert_eq!(path, "./saves/two.daz"),
        _ => panic!("a project item must load its project"),
    }
}

#[test]
fn projects_menu_of_nothing() {
    assert!(Menu::projects(Vec::new()).items.is_empty());
    assert!(Menu::projects(vec![file("a", None)]).items.is_empty());
}

#[test]
fn action_clone_is_the_same_action() {
    let action = Action::LoadProject("./saves/a.daz".to_string());
    match action.clone() {
        Action::LoadProject(path) => assert_eq!(path, "./saves/a.daz"),
        _ => panic!("a clone must be the same action"),
    }
    assert!(matches!(Action::OpenMenu(3).clone(), Action::OpenMenu(3)));
    assert!(matches!(Action::SaveProject.clone(), Action::SaveProject));
}
