//! HID reports and the translation of input events into them.

use km_hub::hid::translate::Translator;
use km_hub::hid::HidFrame;
use km_hub::input::codes::{KeyCode, RelativeAxisCode};

/// Over GATT the report ID travels in the Report Reference descriptor, so
/// the payload must be everything *after* it, for every report kind.
#[test]
fn payload_strips_report_id() {
    let kbd = HidFrame::Keyboard([1, 0x02, 0, 4, 5, 0, 0, 0, 0]);
    assert_eq!(kbd.report_id(), 1);
    assert_eq!(kbd.payload(), &[0x02, 0, 4, 5, 0, 0, 0, 0]);

    let mouse = HidFrame::Mouse([2, 0x01, 10, 0xF6, 0]);
    assert_eq!(mouse.report_id(), 2);
    assert_eq!(mouse.payload(), &[0x01, 10, 0xF6, 0]);

    let consumer = HidFrame::Consumer([4, 0xE9, 0x00]);
    assert_eq!(consumer.report_id(), 4);
    assert_eq!(consumer.payload(), &[0xE9, 0x00]);
}

#[test]
fn press_and_release_sequencing() {
    let mut t = Translator::new();
    t.handle_key(KeyCode::KEY_A, 1);
    assert_eq!(
        t.flush(),
        vec![HidFrame::Keyboard([1, 0, 0, 0x04, 0, 0, 0, 0, 0])]
    );
    // No change between SYNs -> nothing emitted.
    assert!(t.flush().is_empty());
    t.handle_key(KeyCode::KEY_A, 0);
    assert_eq!(t.flush(), vec![HidFrame::Keyboard([1, 0, 0, 0, 0, 0, 0, 0, 0])]);
}

#[test]
fn repeats_are_ignored() {
    let mut t = Translator::new();
    t.handle_key(KeyCode::KEY_A, 1);
    t.flush();
    t.handle_key(KeyCode::KEY_A, 2);
    assert!(t.flush().is_empty());
}

#[test]
fn modifier_bits() {
    let mut t = Translator::new();
    t.handle_key(KeyCode::KEY_LEFTSHIFT, 1);
    t.handle_key(KeyCode::KEY_RIGHTMETA, 1);
    assert_eq!(
        t.flush(),
        vec![HidFrame::Keyboard([1, 0b1000_0010, 0, 0, 0, 0, 0, 0, 0])]
    );
}

#[test]
fn rollover_overflow_drops_extras() {
    let mut t = Translator::new();
    for k in [
        KeyCode::KEY_A,
        KeyCode::KEY_B,
        KeyCode::KEY_C,
        KeyCode::KEY_D,
        KeyCode::KEY_E,
        KeyCode::KEY_F,
        KeyCode::KEY_G, // 7th key: dropped
    ] {
        t.handle_key(k, 1);
    }
    let frames = t.flush();
    assert_eq!(
        frames,
        vec![HidFrame::Keyboard([
            1, 0, 0, 0x04, 0x05, 0x06, 0x07, 0x08, 0x09
        ])]
    );
}

#[test]
fn mouse_accumulates_and_splits() {
    let mut t = Translator::new();
    t.handle_rel(RelativeAxisCode::REL_X, 100);
    t.handle_rel(RelativeAxisCode::REL_X, 100);
    t.handle_rel(RelativeAxisCode::REL_Y, -3);
    t.handle_key(KeyCode::BTN_LEFT, 1);
    assert!(t.mouse_buttons_dirty() && t.mouse_motion_pending());
    let frames = t.flush();
    assert_eq!(
        frames,
        vec![
            HidFrame::Mouse([2, 0x01, 127, (-3i8) as u8, 0]),
            HidFrame::Mouse([2, 0x01, 73, 0, 0]),
        ]
    );
    assert!(!t.mouse_buttons_dirty() && !t.mouse_motion_pending());
    // Deltas reset after flush; button state persists.
    t.handle_rel(RelativeAxisCode::REL_WHEEL, 1);
    assert_eq!(t.flush(), vec![HidFrame::Mouse([2, 0x01, 0, 0, 1])]);
}

#[test]
fn side_buttons_reach_the_report() {
    let mut t = Translator::new();
    t.handle_key(KeyCode::BTN_SIDE, 1);
    assert_eq!(t.flush(), vec![HidFrame::Mouse([2, 0b0000_1000, 0, 0, 0])]);
    t.handle_key(KeyCode::BTN_EXTRA, 1);
    assert_eq!(t.flush(), vec![HidFrame::Mouse([2, 0b0001_1000, 0, 0, 0])]);
    t.handle_key(KeyCode::BTN_SIDE, 0);
    t.handle_key(KeyCode::BTN_EXTRA, 0);
    assert_eq!(t.flush(), vec![HidFrame::Mouse([2, 0, 0, 0, 0])]);
    // Mice that spell the thumb pair the other way land on the same bits.
    t.handle_key(KeyCode::BTN_BACK, 1);
    assert_eq!(t.flush(), vec![HidFrame::Mouse([2, 0b0000_1000, 0, 0, 0])]);
    t.handle_key(KeyCode::BTN_FORWARD, 1);
    assert_eq!(t.flush(), vec![HidFrame::Mouse([2, 0b0001_1000, 0, 0, 0])]);
}

#[test]
fn media_keys_go_out_on_the_consumer_page() {
    let mut t = Translator::new();
    t.handle_key(KeyCode::KEY_VOLUMEUP, 1);
    assert_eq!(t.flush(), vec![HidFrame::Consumer([4, 0xE9, 0])]);
    t.handle_key(KeyCode::KEY_VOLUMEUP, 0);
    assert_eq!(t.flush(), vec![HidFrame::Consumer([4, 0, 0])]);
    t.handle_key(KeyCode::KEY_VOLUMEDOWN, 1);
    assert_eq!(t.flush(), vec![HidFrame::Consumer([4, 0xEA, 0])]);
    // Letting go of an older key while a newer one is held must not clear
    // the report out from under the key still down.
    t.handle_key(KeyCode::KEY_MUTE, 1);
    assert_eq!(t.flush(), vec![HidFrame::Consumer([4, 0xE2, 0])]);
    t.handle_key(KeyCode::KEY_VOLUMEDOWN, 0);
    assert!(t.flush().is_empty());
    t.handle_key(KeyCode::KEY_MUTE, 0);
    assert_eq!(t.flush(), vec![HidFrame::Consumer([4, 0, 0])]);
    // Media keys must not also leak onto the keyboard page.
    t.handle_key(KeyCode::KEY_PLAYPAUSE, 1);
    assert_eq!(t.flush(), vec![HidFrame::Consumer([4, 0xCD, 0])]);
}

#[test]
fn release_all_clears_a_held_media_key() {
    let mut t = Translator::new();
    t.handle_key(KeyCode::KEY_VOLUMEUP, 1);
    t.flush();
    assert_eq!(t.release_all(), vec![HidFrame::Consumer([4, 0, 0])]);
    assert!(t.flush().is_empty());
}

#[test]
fn release_all_clears_state() {
    let mut t = Translator::new();
    t.handle_key(KeyCode::KEY_A, 1);
    t.handle_key(KeyCode::KEY_LEFTCTRL, 1);
    t.handle_key(KeyCode::BTN_LEFT, 1);
    t.flush();
    let frames = t.release_all();
    assert_eq!(
        frames,
        vec![
            HidFrame::Keyboard([1, 0, 0, 0, 0, 0, 0, 0, 0]),
            HidFrame::Mouse([2, 0, 0, 0, 0]),
        ]
    );
    assert!(t.flush().is_empty());
}

#[test]
fn release_all_emits_a_release_that_was_not_flushed() {
    let mut t = Translator::new();
    t.handle_key(KeyCode::KEY_A, 1);
    t.handle_key(KeyCode::BTN_LEFT, 1);
    t.handle_key(KeyCode::KEY_MUTE, 1);
    assert_eq!(t.flush().len(), 3);
    t.handle_key(KeyCode::KEY_A, 0);
    t.handle_key(KeyCode::BTN_LEFT, 0);
    t.handle_key(KeyCode::KEY_MUTE, 0);
    assert_eq!(
        t.release_all(),
        vec![
            HidFrame::Keyboard([1, 0, 0, 0, 0, 0, 0, 0, 0]),
            HidFrame::Mouse([2, 0, 0, 0, 0]),
            HidFrame::Consumer([4, 0, 0]),
        ]
    );
    assert!(t.flush().is_empty());
    assert!(t.release_all().is_empty());
}
