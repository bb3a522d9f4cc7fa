use evdev::Key;
use orbweaver::keyset::output_keys;
use orbweaver::utils::{create_str_map, ConfigStruct, KeyStruct, KeyType, StrMap, SYMBOL_KEYS};

fn symbols() -> Vec<(&'static str, Key)> {
    vec![
        ("1", Key::KEY_1),
        ("2", Key::KEY_2),
        ("3", Key::KEY_3),
        ("4", Key::KEY_4),
        ("5", Key::KEY_5),
        ("6", Key::KEY_6),
        ("7", Key::KEY_7),
        ("8", Key::KEY_8),
        ("9", Key::KEY_9),
        ("0", Key::KEY_0),
        ("Q", Key::KEY_Q),
        ("W", Key::KEY_W),
        ("E", Key::KEY_E),
        ("R", Key::KEY_R),
        ("T", Key::KEY_T),
        ("Y", Key::KEY_Y),
        ("U", Key::KEY_U),
        ("I", Key::KEY_I),
        ("O", Key::KEY_O),
        ("P", Key::KEY_P),
        ("A", Key::KEY_A),
        ("S", Key::KEY_S),
        ("D", Key::KEY_D),
        ("F", Key::KEY_F),
        ("G", Key::KEY_G),
        ("H", Key::KEY_H),
        ("J", Key::KEY_J),
        ("K", Key::KEY_K),
        ("L", Key::KEY_L),
        ("SEMI", Key::KEY_SEMICOLON),
        ("Z", Key::KEY_Z),
        ("X", Key::KEY_X),
        ("C", Key::KEY_C),
        ("V", Key::KEY_V),
        ("B", Key::KEY_B),
        ("M", Key::KEY_M),
        ("N", Key::KEY_N),
        ("COMMA", Key::KEY_COMMA),
        ("DOT", Key::KEY_DOT),
        ("BSLSH", Key::KEY_SLASH),
        ("F1", Key::KEY_F1),
        ("F2", Key::KEY_F2),
        ("F3", Key::KEY_F3),
        ("F4", Key::KEY_F4),
        ("F5", Key::KEY_F5),
        ("F6", Key::KEY_F6),
        ("F7", Key::KEY_F7),
        ("F8", Key::KEY_F8),
        ("F9", Key::KEY_F9),
        ("F10", Key::KEY_F10),
        ("F11", Key::KEY_F11),
        ("F12", Key::KEY_F12),
        ("F13", Key::KEY_F13),
        ("F14", Key::KEY_F14),
        ("F15", Key::KEY_F15),
        ("F16", Key::KEY_F16),
        ("F17", Key::KEY_F17),
        ("F18", Key::KEY_F18),
        ("F19", Key::KEY_F19),
        ("F20", Key::KEY_F20),
        ("F21", Key::KEY_F21),
        ("F22", Key::KEY_F22),
        ("F23", Key::KEY_F23),
        ("F24", Key::KEY_F24),
        ("SPACE", Key::KEY_SPACE),
        ("CTRL", Key::KEY_LEFTCTRL),
        ("SHIFT", Key::KEY_LEFTSHIFT),
        ("TAB", Key::KEY_TAB),
        ("ESC", Key::KEY_ESC),
    ]
}

#[test]
fn every_symbol_stands_for_its_evdev_key() {
    let table = create_str_map();
    for (symbol, key) in symbols() {
        assert_eq!(table.get(symbol), Some(key.code()), "{}", symbol);
    }
}

#[test]
fn symbol_table_holds_exactly_the_listed_symbols() {
    let table = create_str_map();
    assert_eq!(symbols().len(), 69);
    assert_eq!(SYMBOL_KEYS.len(), 69);
    assert_eq!(table.len(), 69);
    for (i, (symbol, _)) in symbols().iter().enumerate() {
        assert_eq!(SYMBOL_KEYS[i].0, *symbol);
    }
}

#[test]
fn some_symbols_have_their_known_codes() {
    let table = create_str_map();
    assert_eq!(table.get("ESC"), Some(1));
    assert_eq!(table.get("1"), Some(2));
    assert_eq!(table.get("0"), Some(11));
    assert_eq!(table.get("Q"), Some(16));
    assert_eq!(table.get("W"), Some(17));
    assert_eq!(table.get("SPACE"), Some(57));
    assert_eq!(table.get("BSLSH"), Some(53));
    assert_eq!(table.get("F24"), Some(194));
}

#[test]
fn names_outside_the_table_stand_for_nothing() {
    let table = create_str_map();
    assert_eq!(table.get("ENTER"), None);
    assert_eq!(table.get("q"), None);
    assert_eq!(table.get("KEY_Q"), None);
    assert_eq!(table.get(""), None);
    assert_eq!(table.get("F25"), None);
}

#[test]
fn new_table_is_empty() {
    let table = StrMap::new();
    assert_eq!(table.len(), 0);
    assert_eq!(table.get("Q"), None);
}

#[test]
fn insert_adds_or_replaces() {
    let mut table = StrMap::new();
    table.insert("A", 30);
    table.insert("B", 48);
    assert_eq!(table.len(), 2);
    assert_eq!(table.get("A"), Some(30));
    assert_eq!(table.get("B"), Some(48));
    table.insert("A", 31);
    assert_eq!(table.len(), 2);
    assert_eq!(table.get("A"), Some(31));
    assert_eq!(table.get("B"), Some(48));
    table.insert("", 0x2ff);
    assert_eq!(table.get(""), Some(0x2ff));
    assert_eq!(table.len(), 3);
}

#[test]
fn bind_looks_the_key_up_by_its_evdev_name() {
    let mut table = StrMap::new();
    table.bind("JUMP", "KEY_SPACE");
    assert_eq!(table.get("JUMP"), Some(Key::KEY_SPACE.code()));
    assert_eq!(table.get("KEY_SPACE"), None);
    table.bind("FIRE", "BTN_LEFT");
    assert_eq!(table.get("FIRE"), Some(Key::BTN_LEFT.code()));
    assert_eq!(table.len(), 2);
}

#[test]
fn bind_leaves_the_table_alone_for_an_unknown_key() {
    let mut table = StrMap::new();
    table.insert("JUMP", 57);
    table.bind("JUMP", "KEY_NO_SUCH_KEY");
    table.bind("OTHER", "SPACE");
    table.bind("OTHER", "key_space");
    table.bind("OTHER", "");
    assert_eq!(table.len(), 1);
    assert_eq!(table.get("JUMP"), Some(57));
    assert_eq!(table.get("OTHER"), None);
}

#[test]
fn bind_code_keeps_only_codes_a_key_set_can_hold() {
    let mut table = StrMap::new();
    table.bind_code("A", None);
    assert_eq!(table.len(), 0);
    table.bind_code("A", Some(0x300));
    table.bind_code("A", Some(u16::MAX));
    assert_eq!(table.len(), 0);
    table.bind_code("A", Some(0x2ff));
    assert_eq!(table.get("A"), Some(0x2ff));
    table.bind_code("A", Some(0));
    assert_eq!(table.get("A"), Some(0));
    table.bind_code("A", Some(0x300));
    assert_eq!(table.get("A"), Some(0));
}

#[test]
fn output_keys_are_the_codes_once_each_in_rising_order() {
    let mut table = StrMap::new();
    table.insert("B", 48);
    table.insert("A", 30);
    table.insert("C", 30);
    table.insert("LAST", 0x2ff);
    table.insert("FIRST", 0);
    assert_eq!(output_keys(&table), vec![0, 30, 48, 0x2ff]);
    assert_eq!(output_keys(&StrMap::new()), Vec::<u16>::new());
}

#[test]
fn output_keys_of_the_symbol_table_are_its_evdev_keys() {
    let mut expected: Vec<u16> = symbols().iter().map(|(_, key)| key.code()).collect();
    expected.sort();
    expected.dedup();
    assert_eq!(output_keys(&create_str_map()), expected);
    assert_eq!(expected.len(), 69);
}

#[test]
fn key_type_has_a_name() {
    assert_eq!(KeyType::Regular.to_string(), "Regular");
    assert_eq!(KeyType::Repeat.to_string(), "Repeat");
}

#[test]
fn entries_can_be_copied() {
    let key = KeyStruct { code: 17, key_type: KeyType::Repeat };
    let copy = key.clone();
    assert_eq!(copy, key);
    assert_eq!(copy.code, 17);
    assert_eq!(copy.key_type, KeyType::Repeat);
    let config = ConfigStruct { key_str: "SPACE".to_string(), key_type: KeyType::Repeat };
    let copy = config.clone();
    assert_eq!(copy.key_str, "SPACE");
    assert_eq!(copy.key_type, KeyType::Repeat);
    assert_eq!(config.key_str, "SPACE");
}
