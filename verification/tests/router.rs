//! The router: where input goes.

use km_hub::bt::addr::Address;
use km_hub::bt::BtCmd;
use km_hub::config::LOCAL_SLOT;
use km_hub::hid::HidFrame;
use km_hub::hooks::HookEvent;
use km_hub::input::codes::{EventType, KeyCode, RelativeAxisCode};
use km_hub::input::keys::KeyCombo;
use km_hub::input::InputEvent;
use km_hub::router::{Action, Resume, Router};
use km_hub::state::{Binding, Bindings};
use km_hub::time::{Duration, Instant};

const START: Instant = Instant { nanos: 5_000_000_000 };

fn bound(slots: &[u8]) -> Bindings {
    let mut out = Bindings::new();
    for &slot in slots {
        out.insert(
            slot,
            Binding {
                addr: Address::new([0, 0, 0, 0, 0, slot]),
                name: format!("host {slot}"),
                from_config: false,
            },
        );
    }
    out
}

fn key(code: u16, value: i32) -> InputEvent {
    InputEvent { kind: EventType::KEY, code, value }
}

fn rel(code: u16, value: i32) -> InputEvent {
    InputEvent { kind: EventType::RELATIVE, code, value }
}

fn syn() -> InputEvent {
    InputEvent { kind: EventType::SYNCHRONIZATION, code: 0, value: 0 }
}

/// Handle an event, carry on after a release as the sink would, and list what
/// was asked for.
fn feed(r: &mut Router, event: InputEvent, now: Instant, b: &Bindings) -> Vec<Action> {
    assert!(r.fits(&event));
    let step = r.handle(event, now, b);
    let mut out = step.actions;
    if let Some(release) = step.release {
        out.extend(r.resume(release.next));
    }
    out
}

fn switch_to(r: &mut Router, fkey: u16, shift: bool, now: Instant, b: &Bindings) -> Vec<Action> {
    let mut held = vec![KeyCode::KEY_LEFTCTRL, KeyCode::KEY_LEFTALT];
    if shift {
        held.push(KeyCode::KEY_LEFTSHIFT);
    }
    for &k in &held {
        feed(r, key(k, 1), now, b);
    }
    let out = feed(r, key(fkey, 1), now, b);
    feed(r, key(fkey, 0), now, b);
    for &k in &held {
        feed(r, key(k, 0), now, b);
    }
    out
}

fn router() -> Router {
    Router::new(LOCAL_SLOT, Vec::new(), 125, true, true, START)
}

#[test]
fn the_hub_starts_on_the_local_slot() {
    let b = bound(&[2]);
    let mut r = router();
    assert_eq!(r.active_slot(), LOCAL_SLOT);
    let actions = feed(&mut r, key(KeyCode::KEY_A, 1), START, &b);
    assert!(actions.contains(&Action::Emit { event: key(KeyCode::KEY_A, 1) }));
    assert!(!actions.iter().any(|a| matches!(a, Action::Frame { .. })));
}

#[test]
fn a_restored_slot_takes_the_input_from_the_start() {
    let b = bound(&[3]);
    let mut r = Router::new(3, Vec::new(), 125, true, true, START);
    assert_eq!(r.active_slot(), 3);
    feed(&mut r, key(KeyCode::KEY_A, 1), START, &b);
    let actions = feed(&mut r, syn(), START, &b);
    let frame = HidFrame::Keyboard([1, 0, 0, 4, 0, 0, 0, 0, 0]);
    assert!(actions.contains(&Action::Frame { slot: 3, frame }));
    assert!(!actions.iter().any(|a| matches!(a, Action::Emit { .. })));
}

#[test]
fn a_switch_sends_keys_to_the_host() {
    let b = bound(&[2]);
    let mut r = router();
    let actions = switch_to(&mut r, KeyCode::KEY_F2, false, START, &b);
    assert!(actions.contains(&Action::Slot { slot: 2 }));
    assert!(!actions.iter().any(|a| matches!(a, Action::Hook { .. })));
    assert_eq!(r.active_slot(), 2);
    feed(&mut r, key(KeyCode::KEY_A, 1), START, &b);
    let actions = feed(&mut r, syn(), START, &b);
    assert!(actions.contains(&Action::Frame {
        slot: 2,
        frame: HidFrame::Keyboard([1, 0, 0, 4, 0, 0, 0, 0, 0]),
    }));
    // Leaving with the key down releases it on the host that is left.
    let actions = switch_to(&mut r, KeyCode::KEY_F1, false, START, &b);
    assert!(actions.contains(&Action::Frame {
        slot: 2,
        frame: HidFrame::Keyboard([1, 0, 0, 0, 0, 0, 0, 0, 0]),
    }));
    assert!(actions.contains(&Action::Slot { slot: LOCAL_SLOT }));
}

#[test]
fn shift_fires_the_hooks() {
    let b = bound(&[3]);
    let mut r = router();
    let actions = switch_to(&mut r, KeyCode::KEY_F3, true, START, &b);
    assert!(actions.contains(&Action::Hook { event: HookEvent::Slot(3) }));
}

#[test]
fn an_unbound_slot_opens_a_pairing_window() {
    let b = bound(&[]);
    let mut r = router();
    let actions = switch_to(&mut r, KeyCode::KEY_F4, false, START, &b);
    assert!(actions.contains(&Action::Command { cmd: BtCmd::OpenPairingWindow { slot: 4 } }));
}

#[test]
fn a_held_combo_asks_for_a_re_pair() {
    let b = bound(&[2]);
    let mut r = router();
    for k in [KeyCode::KEY_LEFTCTRL, KeyCode::KEY_LEFTALT, KeyCode::KEY_F2] {
        feed(&mut r, key(k, 1), START, &b);
    }
    let deadline = r.repair_deadline().expect("armed");
    assert!(deadline.nanos > START.nanos);
    assert_eq!(r.fire_repair(), Some(BtCmd::RepairSlot { slot: 2 }));
    assert_eq!(r.repair_deadline(), None);
    feed(&mut r, key(KeyCode::KEY_F2, 0), START, &b);
    assert_eq!(r.fire_repair(), None);
}

#[test]
fn motion_is_paced_but_buttons_are_not() {
    let b = bound(&[2]);
    let mut r = router();
    switch_to(&mut r, KeyCode::KEY_F2, false, START, &b);
    feed(&mut r, rel(RelativeAxisCode::REL_X, 5), START, &b);
    let first = feed(&mut r, syn(), START, &b);
    assert!(first.contains(&Action::Frame { slot: 2, frame: HidFrame::Mouse([2, 0, 5, 0, 0]) }));
    let soon = START.after(Duration::from_millis(1));
    feed(&mut r, rel(RelativeAxisCode::REL_X, 7), soon, &b);
    let held = feed(&mut r, syn(), soon, &b);
    assert!(!held.iter().any(|a| matches!(a, Action::Frame { .. })));
    assert_eq!(r.flush_deadline(), Some(START.after(Duration::from_millis(8))));
    feed(&mut r, key(KeyCode::BTN_LEFT, 1), soon, &b);
    let pressed = feed(&mut r, syn(), soon, &b);
    assert!(pressed.contains(&Action::Frame { slot: 2, frame: HidFrame::Mouse([2, 1, 7, 0, 0]) }));
    feed(&mut r, rel(RelativeAxisCode::REL_Y, 1), soon, &b);
    feed(&mut r, syn(), soon, &b);
    let flushed = r.flush_mouse_now(START.after(Duration::from_millis(20)));
    assert_eq!(flushed, vec![Action::Frame { slot: 2, frame: HidFrame::Mouse([2, 1, 0, 1, 0]) }]);
    assert_eq!(r.flush_deadline(), None);
}

#[test]
fn a_macro_runs_on_any_slot_and_switches_nothing() {
    let b = bound(&[2]);
    let mut r = Router::new(LOCAL_SLOT, vec![KeyCombo::from_str("ctrl+kp1").unwrap()], 125, true, false, START);
    feed(&mut r, key(KeyCode::KEY_LEFTCTRL, 1), START, &b);
    let step = r.handle(key(KeyCode::KEY_KP1, 1), START, &b);
    let release = step.release.expect("the modifier is released first");
    assert_eq!(release.keys, vec![KeyCode::KEY_LEFTCTRL]);
    assert_eq!(release.next, Resume::Macro { index: 0 });
    assert_eq!(r.resume(release.next), vec![Action::Hook { event: HookEvent::Macro(0) }]);
    assert_eq!(r.active_slot(), LOCAL_SLOT);
}

#[test]
fn dropped_frames_are_counted() {
    let mut r = router();
    assert_eq!(r.frame_dropped(), Some(1));
    for _ in 0..99 {
        assert_eq!(r.frame_dropped(), None);
    }
    assert_eq!(r.frame_dropped(), Some(101));
    assert_eq!(r.dropped_frames(), 101);
}
