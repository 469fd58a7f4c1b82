use sequencer::midimessage::NoteEvent;
use sequencer::sequencer_data::{InstrumentData, Message, SequencerData};
use serde_json::{Number, Value};

fn note_to_json(note: &NoteEvent) -> Value {
    let mut object = serde_json::Map::new();
    object.insert("note_id".to_string(), Value::from(note.note_id));
    object.insert("tick_on".to_string(), Value::from(note.tick_on));
    object.insert("tick_off".to_string(), Value::from(note.tick_off));
    object.insert("record_session".to_string(), Value::from(note.record_session));
    object.insert("stamp_record".to_string(), Value::from(note.stamp_record));
    Value::Object(object)
}

fn number(x: f32) -> Value {
    Value::Number(Number::from_f64(x as f64).unwrap())
}

fn instrument_to_json(instrument: &InstrumentData<f32>) -> Value {
    let mut object = serde_json::Map::new();
    object.insert("name".to_string(), Value::from(instrument.name.clone()));
    object.insert("volume".to_string(), number(instrument.volume));
    object.insert("current_preset_id".to_string(), Value::from(instrument.current_preset_id));
    object.insert(
        "presets".to_string(),
        Value::Array(instrument.presets.iter().map(|p| Value::from(p.clone())).collect()),
    );
    object.insert(
        "paired_notes".to_string(),
        Value::Array(instrument.paired_notes.iter().map(note_to_json).collect()),
    );
    object.insert("rms_left".to_string(), number(instrument.rms_left));
    object.insert("rms_right".to_string(), number(instrument.rms_right));
    Value::Object(object)
}

fn export(instruments: &[InstrumentData<f32>]) -> String {
    serde_json::to_string(&Value::Array(instruments.iter().map(instrument_to_json).collect()))
        .unwrap()
}

fn note_from_json(value: &Value) -> NoteEvent {
    NoteEvent {
        note_id: value["note_id"].as_u64().unwrap() as u8,
        tick_on: value["tick_on"].as_i64().unwrap() as i32,
        tick_off: value["tick_off"].as_i64().unwrap() as i32,
        record_session: value["record_session"].as_i64().unwrap() as i32,
        stamp_record: value["stamp_record"].as_i64().unwrap() as i32,
    }
}

fn import(text: &str) -> Vec<InstrumentData<f32>> {
    let value: Value = serde_json::from_str(text).unwrap();
    value
        .as_array()
        .unwrap()
        .iter()
        .map(|v| InstrumentData {
            name: v["name"].as_str().unwrap().to_string(),
            volume: v["volume"].as_f64().unwrap() as f32,
            current_preset_id: v["current_preset_id"].as_u64().unwrap() as usize,
            presets: v["presets"]
                .as_array()
                .unwrap()
                .iter()
                .map(|p| p.as_str().unwrap().to_string())
                .collect(),
            paired_notes: v["paired_notes"].as_array().unwrap().iter().map(note_from_json).collect(),
            rms_left: v["rms_left"].as_f64().unwrap() as f32,
            rms_right: v["rms_right"].as_f64().unwrap() as f32,
        })
        .collect()
}

fn project() -> Vec<InstrumentData<f32>> {
    vec![
        InstrumentData {
            name: "Sampler".to_string(),
            volume: 0.7,
            current_preset_id: 1,
            presets: vec!["Daz-Funk".to_string(), "Daz-Kit".to_string()],
            paired_notes: vec![
                NoteEvent { note_id: 60, tick_on: 0, tick_off: 120, record_session: 1, stamp_record: 7 },
                NoteEvent { note_id: 64, tick_on: 240, tick_off: -1, record_session: 3, stamp_record: 9000 },
                NoteEvent { note_id: 127, tick_on: 7559, tick_off: 7679, record_session: -1, stamp_record: -4 },
            ],
            rms_left: 0.25,
            rms_right: 0.125,
        },
        InstrumentData {
            name: "Mood".to_string(),
            volume: 0.5,
            current_preset_id: 0,
            presets: vec!["G-Bass".to_string()],
            paired_notes: Vec::new(),
            rms_left: 0.0,
            rms_right: 0.0,
        },
    ]
}

#[test]
fn project_text_has_the_documented_keys() {
    let text = export(&project());
    let value: Value = serde_json::from_str(&text).unwrap();
    let first = value[0].as_object().unwrap();
    let mut keys: Vec<&str> = first.keys().map(|k| k.as_str()).collect();
    keys.sort();
    assert_eq!(
        keys,
        vec!["current_preset_id", "name", "paired_notes", "presets", "rms_left", "rms_right", "volume"]
    );
    let note = value[0]["paired_notes"][0].as_object().unwrap();
    let mut keys: Vec<&str> = note.keys().map(|k| k.as_str()).collect();
    keys.sort();
    assert_eq!(keys, vec!["note_id", "record_session", "stamp_record", "tick_off", "tick_on"]);
}

#[test]
fn round_trip_keeps_the_notes_but_for_the_session() {
    let saved = project();
    let mut data = SequencerData::new(95.0f32, 1.0f32);
    data.apply(Message::SetInstruments(import(&export(&saved))));
    assert_eq!(data.instruments.len(), saved.len());
    for (loaded, before) in data.instruments.iter().zip(saved.iter()) {
        assert_eq!(loaded.name, before.name);
        assert_eq!(loaded.volume, before.volume);
        assert_eq!(loaded.current_preset_id, before.current_preset_id);
        assert_eq!(loaded.presets, before.presets);
        assert_eq!(loaded.rms_left, before.rms_left);
        assert_eq!(loaded.rms_right, before.rms_right);
        assert_eq!(loaded.paired_notes.len(), before.paired_notes.len());
        for (a, b) in loaded.paired_notes.iter().zip(before.paired_notes.iter()) {
            assert_eq!(*a, NoteEvent { record_session: -1, ..*b });
        }
    }
}

#[test]
fn second_round_trip_changes_nothing() {
    let mut data = SequencerData::new(95.0f32, 1.0f32);
    data.apply(Message::SetInstruments(import(&export(&project()))));
    let once = export(&data.instruments);
    let mut again = SequencerData::new(95.0f32, 1.0f32);
    again.apply(Message::SetInstruments(import(&once)));
    assert_eq!(export(&again.instruments), once);
}
