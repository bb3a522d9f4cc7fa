use evdev::Key;
use orbweaver::config::load_config;
use orbweaver::processor::{Action, EventProcessor, KeymapError};
use orbweaver::repeat::{RepeatWorker, WorkerStep};
use orbweaver::utils::{ConfigStruct, KeyStruct, KeyType, UserConfig};
use std::collections::{HashMap, HashSet};

fn full_config(special: &[&str]) -> UserConfig {
    let mut lines: Vec<String> = (1..=26).map(|slot| format!("{} A", slot)).collect();
    for line in special {
        lines.push(line.to_string());
    }
    load_config(&lines).unwrap()
}

fn processor_with(entries: &[(u16, u16, KeyType)]) -> EventProcessor {
    let mut key_map = HashMap::new();
    for (raw, code, key_type) in entries {
        key_map.insert(*raw, KeyStruct { code: *code, key_type: *key_type });
    }
    EventProcessor { key_map, output_keys: Vec::new(), thread_map: HashSet::new() }
}

#[test]
fn new_processor_has_the_mapping_and_no_worker() {
    let processor = EventProcessor::new(full_config(&["7 W regular", "5 SPACE repeat"])).unwrap();
    assert_eq!(processor.key_map.len(), 26);
    assert!(processor.thread_map.is_empty());
    assert_eq!(
        processor.key_map[&Key::KEY_Q.code()],
        KeyStruct { code: Key::KEY_W.code(), key_type: KeyType::Regular }
    );
    assert_eq!(
        processor.key_map[&Key::KEY_4.code()],
        KeyStruct { code: Key::KEY_SPACE.code(), key_type: KeyType::Repeat }
    );
    assert_eq!(
        processor.key_map[&Key::KEY_GRAVE.code()],
        KeyStruct { code: Key::KEY_A.code(), key_type: KeyType::Regular }
    );
}

#[test]
fn new_processor_lists_the_keys_of_the_virtual_device() {
    let processor = EventProcessor::new(full_config(&[])).unwrap();
    assert_eq!(processor.output_keys.len(), 69);
    assert!(processor.output_keys.windows(2).all(|pair| pair[0] < pair[1]));
    assert!(processor.output_keys.iter().all(|code| *code < 0x300));
    assert!(processor.output_keys.contains(&Key::KEY_SPACE.code()));
    assert!(processor.output_keys.contains(&Key::KEY_F24.code()));
    assert!(!processor.output_keys.contains(&Key::KEY_GRAVE.code()));
    for entry in processor.key_map.values() {
        assert!(processor.output_keys.contains(&entry.code));
    }
}

#[test]
fn new_refuses_a_configuration_that_leaves_a_slot_out() {
    let mut config = full_config(&[]);
    config.remove(&26);
    assert_eq!(EventProcessor::new(config).err(), Some(KeymapError::InvalidKeyCodes));
    assert_eq!(EventProcessor::new(HashMap::new()).err(), Some(KeymapError::InvalidKeyCodes));
}

#[test]
fn new_refuses_a_configuration_with_an_unknown_key_name() {
    assert_eq!(
        EventProcessor::new(full_config(&["12 ENTER"])).err(),
        Some(KeymapError::InvalidKeymap)
    );
    let mut config = full_config(&[]);
    config.insert(300, ConfigStruct { key_str: "w".to_string(), key_type: KeyType::Regular });
    assert_eq!(EventProcessor::new(config).err(), Some(KeymapError::InvalidKeymap));
}

#[test]
fn regular_key_passes_every_value_on_unchanged() {
    let mut processor = processor_with(&[(16, 17, KeyType::Regular)]);
    for value in [0, 1, 2, 3, -1, i32::MAX, i32::MIN] {
        assert_eq!(processor.process_event(16, value), Action::Emit { code: 17, value });
        assert!(processor.thread_map.is_empty());
    }
    assert_eq!(processor.key_map.len(), 1);
}

#[test]
fn unmapped_key_is_reported_and_changes_nothing() {
    let mut processor = processor_with(&[(16, 17, KeyType::Regular), (5, 57, KeyType::Repeat)]);
    processor.process_event(5, 1);
    for value in [0, 1, 2] {
        assert_eq!(processor.process_event(99, value), Action::Unmapped { raw_code: 99 });
        assert_eq!(processor.process_event(17, value), Action::Unmapped { raw_code: 17 });
        assert_eq!(processor.process_event(57, value), Action::Unmapped { raw_code: 57 });
    }
    assert_eq!(processor.thread_map, HashSet::from([57u16]));
    assert_eq!(processor.key_map.len(), 2);
}

#[test]
fn pressed_q_emits_w() {
    let mut processor = EventProcessor::new(full_config(&["7 W regular"])).unwrap();
    assert_eq!(
        processor.process_event(Key::KEY_Q.code(), 1),
        Action::Emit { code: Key::KEY_W.code(), value: 1 }
    );
    assert_eq!(
        processor.process_event(Key::KEY_Q.code(), 2),
        Action::Emit { code: Key::KEY_W.code(), value: 2 }
    );
    assert_eq!(
        processor.process_event(Key::KEY_Q.code(), 0),
        Action::Emit { code: Key::KEY_W.code(), value: 0 }
    );
    assert_eq!(
        processor.process_event(Key::KEY_ENTER.code(), 1),
        Action::Unmapped { raw_code: Key::KEY_ENTER.code() }
    );
}

#[test]
fn second_press_starts_no_second_worker() {
    let mut processor = processor_with(&[(5, 57, KeyType::Repeat)]);
    assert_eq!(processor.process_event(5, 1), Action::StartWorker { code: 57 });
    assert_eq!(processor.thread_map, HashSet::from([57u16]));
    assert_eq!(processor.process_event(5, 1), Action::Nothing);
    assert_eq!(processor.process_event(5, 2), Action::Nothing);
    assert_eq!(processor.process_event(5, 2), Action::Nothing);
    assert_eq!(processor.thread_map, HashSet::from([57u16]));
    assert_eq!(processor.thread_map.len(), 1);
}

#[test]
fn autorepeat_alone_starts_a_worker() {
    let mut processor = processor_with(&[(5, 57, KeyType::Repeat)]);
    assert_eq!(processor.process_event(5, 2), Action::StartWorker { code: 57 });
    assert_eq!(processor.process_event(5, 1), Action::Nothing);
}

#[test]
fn release_cancels_the_worker_and_forgets_it() {
    let mut processor = processor_with(&[(5, 57, KeyType::Repeat)]);
    assert_eq!(processor.process_event(5, 0), Action::Nothing);
    assert_eq!(processor.process_event(5, 1), Action::StartWorker { code: 57 });
    assert_eq!(processor.process_event(5, 0), Action::CancelWorker { code: 57 });
    assert!(processor.thread_map.is_empty());
    assert_eq!(processor.process_event(5, 0), Action::Nothing);
    assert_eq!(processor.process_event(5, 1), Action::StartWorker { code: 57 });
    assert_eq!(processor.thread_map, HashSet::from([57u16]));
}

#[test]
fn workers_of_different_keys_do_not_touch_each_other() {
    let mut processor = processor_with(&[
        (5, 57, KeyType::Repeat),
        (6, 30, KeyType::Repeat),
        (7, 17, KeyType::Regular),
    ]);
    assert_eq!(processor.process_event(5, 1), Action::StartWorker { code: 57 });
    assert_eq!(processor.process_event(6, 1), Action::StartWorker { code: 30 });
    assert_eq!(processor.process_event(7, 1), Action::Emit { code: 17, value: 1 });
    assert_eq!(processor.thread_map, HashSet::from([57u16, 30u16]));
    assert_eq!(processor.process_event(5, 0), Action::CancelWorker { code: 57 });
    assert_eq!(processor.thread_map, HashSet::from([30u16]));
    assert_eq!(processor.process_event(6, 2), Action::Nothing);
    assert_eq!(processor.process_event(6, 0), Action::CancelWorker { code: 30 });
    assert!(processor.thread_map.is_empty());
}

#[test]
fn two_raw_keys_with_one_output_key_share_its_worker() {
    let mut processor = processor_with(&[(5, 57, KeyType::Repeat), (6, 57, KeyType::Repeat)]);
    assert_eq!(processor.process_event(5, 1), Action::StartWorker { code: 57 });
    assert_eq!(processor.process_event(6, 1), Action::Nothing);
    assert_eq!(processor.process_event(5, 0), Action::CancelWorker { code: 57 });
    assert_eq!(processor.process_event(6, 0), Action::Nothing);
}

#[test]
fn controller_steps_can_be_taken_one_by_one() {
    let mut processor = processor_with(&[]);
    assert_eq!(processor.regular_key(17, 2), Action::Emit { code: 17, value: 2 });
    assert_eq!(processor.stop_thread(57), Action::Nothing);
    assert_eq!(processor.repeat_key(57, 0), Action::Nothing);
    assert_eq!(processor.repeat_key(57, 1), Action::StartWorker { code: 57 });
    assert_eq!(processor.repeat_key(57, -3), Action::Nothing);
    assert_eq!(processor.start_repeat(57), Action::StartWorker { code: 57 });
    assert_eq!(processor.thread_map.len(), 1);
    assert_eq!(processor.start_repeat(30), Action::StartWorker { code: 30 });
    assert_eq!(processor.stop_thread(57), Action::CancelWorker { code: 57 });
    assert_eq!(processor.thread_map, HashSet::from([30u16]));
    assert_eq!(processor.repeat_key(30, 0), Action::CancelWorker { code: 30 });
    assert!(processor.thread_map.is_empty());
}

#[test]
fn held_space_repeats_until_it_is_let_go() {
    let mut processor = EventProcessor::new(full_config(&["5 SPACE repeat"])).unwrap();
    let raw = Key::KEY_4.code();
    let space = Key::KEY_SPACE.code();
    assert_eq!(processor.process_event(raw, 1), Action::StartWorker { code: space });
    let mut worker = RepeatWorker::new(space);
    let mut emitted = vec![worker.event()];
    match worker.advance(false) {
        WorkerStep::Pause { millis } => assert!((50..75).contains(&millis)),
        other => panic!("{:?}", other),
    }
    emitted.push(worker.event());
    assert!(matches!(worker.advance(false), WorkerStep::Pause { .. }));
    emitted.push(worker.event());
    assert_eq!(processor.process_event(raw, 0), Action::CancelWorker { code: space });
    assert!(processor.thread_map.is_empty());
    assert_eq!(worker.advance(true), WorkerStep::Release { code: space });
    emitted.push((space, 0));
    assert_eq!(emitted, vec![(space, 1), (space, 0), (space, 1), (space, 0)]);
    assert_eq!(worker.event(), (space, 0));
}
