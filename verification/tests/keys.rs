//! Key combo naming.

use km_hub::input::codes::KeyCode;
use km_hub::input::keys::{modifier_of, KeyCombo, Modifier, Mods};

fn parse(s: &str) -> KeyCombo {
    KeyCombo::from_str(s).unwrap_or_else(|e| panic!("{s}: {}", e.message()))
}

#[test]
fn parses_and_prints_canonically() {
    let combo = parse("Alt + CTRL+KP1");
    assert_eq!(combo.key, KeyCode::KEY_KP1);
    assert!(combo.mods.ctrl && combo.mods.alt && !combo.mods.shift && !combo.mods.sup);
    assert_eq!(combo.to_string(), "ctrl+alt+kp1");
    assert_eq!(parse("shift+super+f13").to_string(), "shift+super+f13");
    assert_eq!(parse("A").to_string(), "a");
    assert_eq!(parse("1").to_string(), "1");
    assert_eq!(parse("ctrl+alt+shift+super+pause").to_string(), "ctrl+alt+shift+super+pause");
}

#[test]
fn display_round_trips() {
    for s in ["ctrl+alt+kp1", "super+a", "prog1", "ctrl+alt+shift+super+f24"] {
        assert_eq!(parse(s).to_string(), s);
        assert_eq!(parse(&parse(s).to_string()), parse(s));
    }
}

#[test]
fn modifier_aliases() {
    assert_eq!(parse("control+meta+x"), parse("ctrl+super+x"));
    assert_eq!(parse("win+x"), parse("super+x"));
}

#[test]
fn rejects_bad_input() {
    for s in [
        "ctrl+bogus",
        "ctrl+alt",
        "ctrl+a+b",
        "ctrl+ctrl+a",
        "leftctrl+a",
        "ctrl+leftshift",
        "",
        "ctrl++a",
    ] {
        assert!(KeyCombo::from_str(s).is_err(), "{s:?} should not parse");
    }
    let err = KeyCombo::from_str("ctrl+bogus").unwrap_err().message();
    assert!(err.contains("bogus"), "{err}");
}

#[test]
fn reserved_switch_combos() {
    assert!(parse("ctrl+alt+f1").is_reserved());
    assert!(parse("ctrl+alt+f12").is_reserved());
    assert!(parse("ctrl+alt+shift+f5").is_reserved());
    assert!(parse("ctrl+alt+super+f5").is_reserved());
    assert!(!parse("ctrl+alt+f13").is_reserved());
    assert!(!parse("ctrl+f5").is_reserved());
    assert!(!parse("alt+shift+f5").is_reserved());
    assert!(!parse("ctrl+alt+kp1").is_reserved());
}

#[test]
fn mods_from_held_keys() {
    let held = [KeyCode::KEY_RIGHTCTRL, KeyCode::KEY_A, KeyCode::KEY_LEFTMETA];
    let mods = Mods::from_held(&held);
    assert!(mods.ctrl && mods.sup && !mods.alt && !mods.shift);
    assert_eq!(modifier_of(KeyCode::KEY_RIGHTSHIFT), Some(Modifier::Shift));
    assert_eq!(modifier_of(KeyCode::KEY_A), None);
}

#[test]
fn every_spelling_of_a_combo_reads_the_same() {
    let combo = KeyCombo::from_str("ctrl+super+kp1").unwrap();
    for text in ["CTRL+Super+KP1", "kp1+super+ctrl", " win +\tControl+ kp1 ", "meta+KP1+ctrl"] {
        assert_eq!(KeyCombo::from_str(text).unwrap(), combo, "{text}");
    }
    assert_eq!(combo.to_string(), "ctrl+super+kp1");
}
