//! Input devices, the local sink and the event codes.

use km_hub::input::codes::{BusType, EventType, KeyCode, RelativeAxisCode};
use km_hub::input::keys::{key_name, ComboErrorKind, KeyCombo};
use km_hub::input::{
    discover, is_consumer, is_keyboard, is_mouse, is_own, manages, open_keyboards, release_events,
    route, sink_axes, sink_buttons, sink_keys, Candidate, DeviceCaps, InputEvent, LocalRoute,
    NoDevices,
};

/// The codes are the kernel's, under the names they have there.
#[test]
fn codes_are_those_of_the_kernel() {
    let pairs = [
        (KeyCode::KEY_ESC, evdev::KeyCode::KEY_ESC.code()),
        (KeyCode::KEY_1, evdev::KeyCode::KEY_1.code()),
        (KeyCode::KEY_2, evdev::KeyCode::KEY_2.code()),
        (KeyCode::KEY_3, evdev::KeyCode::KEY_3.code()),
        (KeyCode::KEY_4, evdev::KeyCode::KEY_4.code()),
        (KeyCode::KEY_5, evdev::KeyCode::KEY_5.code()),
        (KeyCode::KEY_6, evdev::KeyCode::KEY_6.code()),
        (KeyCode::KEY_7, evdev::KeyCode::KEY_7.code()),
        (KeyCode::KEY_8, evdev::KeyCode::KEY_8.code()),
        (KeyCode::KEY_9, evdev::KeyCode::KEY_9.code()),
        (KeyCode::KEY_0, evdev::KeyCode::KEY_0.code()),
        (KeyCode::KEY_MINUS, evdev::KeyCode::KEY_MINUS.code()),
        (KeyCode::KEY_EQUAL, evdev::KeyCode::KEY_EQUAL.code()),
        (KeyCode::KEY_BACKSPACE, evdev::KeyCode::KEY_BACKSPACE.code()),
        (KeyCode::KEY_TAB, evdev::KeyCode::KEY_TAB.code()),
        (KeyCode::KEY_Q, evdev::KeyCode::KEY_Q.code()),
        (KeyCode::KEY_W, evdev::KeyCode::KEY_W.code()),
        (KeyCode::KEY_E, evdev::KeyCode::KEY_E.code()),
        (KeyCode::KEY_R, evdev::KeyCode::KEY_R.code()),
        (KeyCode::KEY_T, evdev::KeyCode::KEY_T.code()),
        (KeyCode::KEY_Y, evdev::KeyCode::KEY_Y.code()),
        (KeyCode::KEY_U, evdev::KeyCode::KEY_U.code()),
        (KeyCode::KEY_I, evdev::KeyCode::KEY_I.code()),
        (KeyCode::KEY_O, evdev::KeyCode::KEY_O.code()),
        (KeyCode::KEY_P, evdev::KeyCode::KEY_P.code()),
        (KeyCode::KEY_LEFTBRACE, evdev::KeyCode::KEY_LEFTBRACE.code()),
        (KeyCode::KEY_RIGHTBRACE, evdev::KeyCode::KEY_RIGHTBRACE.code()),
        (KeyCode::KEY_ENTER, evdev::KeyCode::KEY_ENTER.code()),
        (KeyCode::KEY_LEFTCTRL, evdev::KeyCode::KEY_LEFTCTRL.code()),
        (KeyCode::KEY_A, evdev::KeyCode::KEY_A.code()),
        (KeyCode::KEY_S, evdev::KeyCode::KEY_S.code()),
        (KeyCode::KEY_D, evdev::KeyCode::KEY_D.code()),
        (KeyCode::KEY_F, evdev::KeyCode::KEY_F.code()),
        (KeyCode::KEY_G, evdev::KeyCode::KEY_G.code()),
        (KeyCode::KEY_H, evdev::KeyCode::KEY_H.code()),
        (KeyCode::KEY_J, evdev::KeyCode::KEY_J.code()),
        (KeyCode::KEY_K, evdev::KeyCode::KEY_K.code()),
        (KeyCode::KEY_L, evdev::KeyCode::KEY_L.code()),
        (KeyCode::KEY_SEMICOLON, evdev::KeyCode::KEY_SEMICOLON.code()),
        (KeyCode::KEY_APOSTROPHE, evdev::KeyCode::KEY_APOSTROPHE.code()),
        (KeyCode::KEY_GRAVE, evdev::KeyCode::KEY_GRAVE.code()),
        (KeyCode::KEY_LEFTSHIFT, evdev::KeyCode::KEY_LEFTSHIFT.code()),
        (KeyCode::KEY_BACKSLASH, evdev::KeyCode::KEY_BACKSLASH.code()),
        (KeyCode::KEY_Z, evdev::KeyCode::KEY_Z.code()),
        (KeyCode::KEY_X, evdev::KeyCode::KEY_X.code()),
        (KeyCode::KEY_C, evdev::KeyCode::KEY_C.code()),
        (KeyCode::KEY_V, evdev::KeyCode::KEY_V.code()),
        (KeyCode::KEY_B, evdev::KeyCode::KEY_B.code()),
        (KeyCode::KEY_N, evdev::KeyCode::KEY_N.code()),
        (KeyCode::KEY_M, evdev::KeyCode::KEY_M.code()),
        (KeyCode::KEY_COMMA, evdev::KeyCode::KEY_COMMA.code()),
        (KeyCode::KEY_DOT, evdev::KeyCode::KEY_DOT.code()),
        (KeyCode::KEY_SLASH, evdev::KeyCode::KEY_SLASH.code()),
        (KeyCode::KEY_RIGHTSHIFT, evdev::KeyCode::KEY_RIGHTSHIFT.code()),
        (KeyCode::KEY_KPASTERISK, evdev::KeyCode::KEY_KPASTERISK.code()),
        (KeyCode::KEY_LEFTALT, evdev::KeyCode::KEY_LEFTALT.code()),
        (KeyCode::KEY_SPACE, evdev::KeyCode::KEY_SPACE.code()),
        (KeyCode::KEY_CAPSLOCK, evdev::KeyCode::KEY_CAPSLOCK.code()),
        (KeyCode::KEY_F1, evdev::KeyCode::KEY_F1.code()),
        (KeyCode::KEY_F2, evdev::KeyCode::KEY_F2.code()),
        (KeyCode::KEY_F3, evdev::KeyCode::KEY_F3.code()),
        (KeyCode::KEY_F4, evdev::KeyCode::KEY_F4.code()),
        (KeyCode::KEY_F5, evdev::KeyCode::KEY_F5.code()),
        (KeyCode::KEY_F6, evdev::KeyCode::KEY_F6.code()),
        (KeyCode::KEY_F7, evdev::KeyCode::KEY_F7.code()),
        (KeyCode::KEY_F8, evdev::KeyCode::KEY_F8.code()),
        (KeyCode::KEY_F9, evdev::KeyCode::KEY_F9.code()),
        (KeyCode::KEY_F10, evdev::KeyCode::KEY_F10.code()),
        (KeyCode::KEY_NUMLOCK, evdev::KeyCode::KEY_NUMLOCK.code()),
        (KeyCode::KEY_SCROLLLOCK, evdev::KeyCode::KEY_SCROLLLOCK.code()),
        (KeyCode::KEY_KP7, evdev::KeyCode::KEY_KP7.code()),
        (KeyCode::KEY_KP8, evdev::KeyCode::KEY_KP8.code()),
        (KeyCode::KEY_KP9, evdev::KeyCode::KEY_KP9.code()),
        (KeyCode::KEY_KPMINUS, evdev::KeyCode::KEY_KPMINUS.code()),
        (KeyCode::KEY_KP4, evdev::KeyCode::KEY_KP4.code()),
        (KeyCode::KEY_KP5, evdev::KeyCode::KEY_KP5.code()),
        (KeyCode::KEY_KP6, evdev::KeyCode::KEY_KP6.code()),
        (KeyCode::KEY_KPPLUS, evdev::KeyCode::KEY_KPPLUS.code()),
        (KeyCode::KEY_KP1, evdev::KeyCode::KEY_KP1.code()),
        (KeyCode::KEY_KP2, evdev::KeyCode::KEY_KP2.code()),
        (KeyCode::KEY_KP3, evdev::KeyCode::KEY_KP3.code()),
        (KeyCode::KEY_KP0, evdev::KeyCode::KEY_KP0.code()),
        (KeyCode::KEY_KPDOT, evdev::KeyCode::KEY_KPDOT.code()),
        (KeyCode::KEY_102ND, evdev::KeyCode::KEY_102ND.code()),
        (KeyCode::KEY_F11, evdev::KeyCode::KEY_F11.code()),
        (KeyCode::KEY_F12, evdev::KeyCode::KEY_F12.code()),
        (KeyCode::KEY_KPENTER, evdev::KeyCode::KEY_KPENTER.code()),
        (KeyCode::KEY_RIGHTCTRL, evdev::KeyCode::KEY_RIGHTCTRL.code()),
        (KeyCode::KEY_KPSLASH, evdev::KeyCode::KEY_KPSLASH.code()),
        (KeyCode::KEY_SYSRQ, evdev::KeyCode::KEY_SYSRQ.code()),
        (KeyCode::KEY_RIGHTALT, evdev::KeyCode::KEY_RIGHTALT.code()),
        (KeyCode::KEY_HOME, evdev::KeyCode::KEY_HOME.code()),
        (KeyCode::KEY_UP, evdev::KeyCode::KEY_UP.code()),
        (KeyCode::KEY_PAGEUP, evdev::KeyCode::KEY_PAGEUP.code()),
        (KeyCode::KEY_LEFT, evdev::KeyCode::KEY_LEFT.code()),
        (KeyCode::KEY_RIGHT, evdev::KeyCode::KEY_RIGHT.code()),
        (KeyCode::KEY_END, evdev::KeyCode::KEY_END.code()),
        (KeyCode::KEY_DOWN, evdev::KeyCode::KEY_DOWN.code()),
        (KeyCode::KEY_PAGEDOWN, evdev::KeyCode::KEY_PAGEDOWN.code()),
        (KeyCode::KEY_INSERT, evdev::KeyCode::KEY_INSERT.code()),
        (KeyCode::KEY_DELETE, evdev::KeyCode::KEY_DELETE.code()),
        (KeyCode::KEY_MUTE, evdev::KeyCode::KEY_MUTE.code()),
        (KeyCode::KEY_VOLUMEDOWN, evdev::KeyCode::KEY_VOLUMEDOWN.code()),
        (KeyCode::KEY_VOLUMEUP, evdev::KeyCode::KEY_VOLUMEUP.code()),
        (KeyCode::KEY_PAUSE, evdev::KeyCode::KEY_PAUSE.code()),
        (KeyCode::KEY_LEFTMETA, evdev::KeyCode::KEY_LEFTMETA.code()),
        (KeyCode::KEY_RIGHTMETA, evdev::KeyCode::KEY_RIGHTMETA.code()),
        (KeyCode::KEY_COMPOSE, evdev::KeyCode::KEY_COMPOSE.code()),
        (KeyCode::KEY_PROG1, evdev::KeyCode::KEY_PROG1.code()),
        (KeyCode::KEY_NEXTSONG, evdev::KeyCode::KEY_NEXTSONG.code()),
        (KeyCode::KEY_PLAYPAUSE, evdev::KeyCode::KEY_PLAYPAUSE.code()),
        (KeyCode::KEY_PREVIOUSSONG, evdev::KeyCode::KEY_PREVIOUSSONG.code()),
        (KeyCode::KEY_STOPCD, evdev::KeyCode::KEY_STOPCD.code()),
        (KeyCode::KEY_BRIGHTNESSDOWN, evdev::KeyCode::KEY_BRIGHTNESSDOWN.code()),
        (KeyCode::KEY_BRIGHTNESSUP, evdev::KeyCode::KEY_BRIGHTNESSUP.code()),
        (KeyCode::KEY_MICMUTE, evdev::KeyCode::KEY_MICMUTE.code()),
        (KeyCode::BTN_LEFT, evdev::KeyCode::BTN_LEFT.code()),
        (KeyCode::BTN_RIGHT, evdev::KeyCode::BTN_RIGHT.code()),
        (KeyCode::BTN_MIDDLE, evdev::KeyCode::BTN_MIDDLE.code()),
        (KeyCode::BTN_SIDE, evdev::KeyCode::BTN_SIDE.code()),
        (KeyCode::BTN_EXTRA, evdev::KeyCode::BTN_EXTRA.code()),
        (KeyCode::BTN_FORWARD, evdev::KeyCode::BTN_FORWARD.code()),
        (KeyCode::BTN_BACK, evdev::KeyCode::BTN_BACK.code()),
        (KeyCode::BTN_TASK, evdev::KeyCode::BTN_TASK.code()),
        (RelativeAxisCode::REL_X, evdev::RelativeAxisCode::REL_X.0),
        (RelativeAxisCode::REL_Y, evdev::RelativeAxisCode::REL_Y.0),
        (RelativeAxisCode::REL_HWHEEL, evdev::RelativeAxisCode::REL_HWHEEL.0),
        (RelativeAxisCode::REL_WHEEL, evdev::RelativeAxisCode::REL_WHEEL.0),
        (EventType::SYNCHRONIZATION, evdev::EventType::SYNCHRONIZATION.0),
        (EventType::KEY, evdev::EventType::KEY.0),
        (EventType::RELATIVE, evdev::EventType::RELATIVE.0),
        (BusType::BUS_USB, evdev::BusType::BUS_USB.0),
        (BusType::BUS_BLUETOOTH, evdev::BusType::BUS_BLUETOOTH.0),
    ];
    for (ours, theirs) in pairs {
        assert_eq!(ours, theirs);
    }
}

fn caps(name: &str, bus: u16, keys: &[u16], axes: &[u16]) -> DeviceCaps {
    DeviceCaps {
        name: Some(name.to_string()),
        bus,
        keys: if keys.is_empty() { None } else { Some(keys.to_vec()) },
        axes: if axes.is_empty() { None } else { Some(axes.to_vec()) },
    }
}

fn keyboard(name: &str) -> DeviceCaps {
    caps(name, BusType::BUS_USB, &[KeyCode::KEY_A, KeyCode::KEY_ENTER], &[])
}

fn mouse(name: &str) -> DeviceCaps {
    caps(name, BusType::BUS_USB, &[KeyCode::BTN_LEFT], &[RelativeAxisCode::REL_X, RelativeAxisCode::REL_Y])
}

fn at(path: &str, caps: DeviceCaps) -> Candidate {
    Candidate { path: path.to_string(), caps }
}

#[test]
fn devices_are_told_apart() {
    assert!(is_keyboard(&keyboard("k")) && !is_mouse(&keyboard("k")));
    assert!(is_mouse(&mouse("m")) && !is_keyboard(&mouse("m")));
    // A trackball without buttons is no mouse.
    assert!(!is_mouse(&caps("x", BusType::BUS_USB, &[], &[RelativeAxisCode::REL_X])));
    // Media keys count on an external bus only.
    assert!(is_consumer(&caps("c", BusType::BUS_USB, &[KeyCode::KEY_MUTE], &[])));
    assert!(is_consumer(&caps("c", BusType::BUS_BLUETOOTH, &[KeyCode::KEY_VOLUMEUP], &[])));
    assert!(!is_consumer(&caps("c", 0x19, &[KeyCode::KEY_MUTE], &[])));
    assert!(is_own(&keyboard("km-hub virtual keyboard")));
    assert!(!manages(&keyboard("km-hub virtual keyboard")));
    assert!(manages(&keyboard("k")));
    assert!(!manages(&caps("led", BusType::BUS_USB, &[], &[])));
}

#[test]
fn discovery_takes_what_it_is_told_or_what_it_knows() {
    let present = [
        at("/dev/input/event0", keyboard("k")),
        at("/dev/input/event1", keyboard("km-hub virtual keyboard")),
        at("/dev/input/event2", mouse("m")),
        at("/dev/input/event3", caps("lid", 0x19, &[], &[])),
    ];
    assert_eq!(discover(&None, &present).unwrap(), vec!["/dev/input/event0", "/dev/input/event2"]);
    let explicit = Some(vec!["/dev/input/by-id/x".to_string()]);
    assert_eq!(discover(&explicit, &present).unwrap(), vec!["/dev/input/by-id/x"]);
    assert_eq!(discover(&None, &present[3..]), Err(NoDevices));
    assert_eq!(discover(&Some(Vec::new()), &present), Err(NoDevices));
}

#[test]
fn a_running_hub_is_read_through_its_virtual_keyboard() {
    let present = [at("a", keyboard("k")), at("b", keyboard("km-hub virtual keyboard")), at("c", mouse("m"))];
    assert_eq!(open_keyboards(&present), Ok((vec!["b".to_string()], true)));
    assert_eq!(open_keyboards(&present[..1]), Ok((vec!["a".to_string()], false)));
    assert_eq!(open_keyboards(&present[2..]), Err(NoDevices));
}

#[test]
fn the_local_sink_splits_keys_and_buttons() {
    let key = |code, value| InputEvent { kind: EventType::KEY, code, value };
    assert_eq!(route(&key(KeyCode::KEY_A, 1)), LocalRoute::Keyboard);
    assert_eq!(route(&key(KeyCode::BTN_LEFT, 1)), LocalRoute::Mouse);
    assert_eq!(route(&key(KeyCode::BTN_TASK, 0)), LocalRoute::Mouse);
    let motion = InputEvent { kind: EventType::RELATIVE, code: RelativeAxisCode::REL_X, value: 3 };
    assert_eq!(route(&motion), LocalRoute::Mouse);
    assert!(sink_keys().contains(&KeyCode::KEY_A) && !sink_keys().contains(&KeyCode::BTN_LEFT));
    assert!(sink_buttons().contains(&KeyCode::BTN_TASK));
    assert_eq!(sink_axes().len(), 4);
    assert_eq!(
        release_events(&[KeyCode::KEY_A, KeyCode::BTN_LEFT]),
        vec![key(KeyCode::KEY_A, 0), key(KeyCode::BTN_LEFT, 0)]
    );
}

/// Every key with a `KEY_` name can be written in a combo and read again.
#[test]
fn every_named_key_reads_back() {
    let mut named = 0;
    for code in 0..0x2FF {
        let combo = KeyCombo { mods: Default::default(), key: code };
        if !format!("{:?}", evdev::KeyCode::new(code)).starts_with("KEY_") {
            continue;
        }
        match KeyCombo::from_str(&combo.to_string()) {
            Ok(back) => {
                assert_eq!(back, combo, "{combo:?}");
                named += 1;
            }
            Err(e) => assert_eq!(e.kind, ComboErrorKind::ModifierAsTrigger, "{combo:?}"),
        }
    }
    assert!(named > 300, "{named}");
    assert_eq!(key_name(KeyCode::KEY_KP1), "kp1");
}

#[test]
fn combo_errors_tell_what_is_wrong() {
    let kind = |s: &str| KeyCombo::from_str(s).unwrap_err().kind;
    assert_eq!(kind("ctrl++a"), ComboErrorKind::EmptyName);
    assert_eq!(kind("ctrl+bogus"), ComboErrorKind::UnknownKey);
    assert_eq!(kind("ctrl+ctrl+a"), ComboErrorKind::RepeatedModifier);
    assert_eq!(kind("leftctrl+a"), ComboErrorKind::ModifierAsTrigger);
    assert_eq!(kind("ctrl+a+b"), ComboErrorKind::ManyTriggers);
    assert_eq!(kind("ctrl+alt"), ComboErrorKind::NoTrigger);
}
