//! The hotkey state machine.

use km_hub::input::codes::KeyCode;
use km_hub::input::hotkey::{HotkeyFsm, Verdict};
use km_hub::input::keys::KeyCombo;

/// A plain switch: Ctrl+Alt+F<n> with no Shift.
fn switch(slot: u8) -> Verdict {
    Verdict::SwitchTo { slot, fire_hooks: false }
}

/// A switch that also runs the slot's hooks: Ctrl+Alt+Shift+F<n>.
fn switch_and_fire(slot: u8) -> Verdict {
    Verdict::SwitchTo { slot, fire_hooks: true }
}

#[test]
fn plain_keys_pass() {
    let mut fsm = HotkeyFsm::default();
    assert_eq!(fsm.on_key(KeyCode::KEY_A, 1), Verdict::Pass);
    assert_eq!(fsm.on_key(KeyCode::KEY_A, 2), Verdict::Pass);
    assert_eq!(fsm.on_key(KeyCode::KEY_A, 0), Verdict::Pass);
}

#[test]
fn partial_combo_passes() {
    let mut fsm = HotkeyFsm::default();
    assert_eq!(fsm.on_key(KeyCode::KEY_LEFTCTRL, 1), Verdict::Pass);
    // F-key without Alt held is a normal key.
    assert_eq!(fsm.on_key(KeyCode::KEY_F2, 1), Verdict::Pass);
    assert_eq!(fsm.on_key(KeyCode::KEY_F2, 0), Verdict::Pass);
    assert_eq!(fsm.on_key(KeyCode::KEY_LEFTCTRL, 0), Verdict::Pass);
}

#[test]
fn full_combo_switches_and_swallows() {
    let mut fsm = HotkeyFsm::default();
    assert_eq!(fsm.on_key(KeyCode::KEY_LEFTCTRL, 1), Verdict::Pass);
    assert_eq!(fsm.on_key(KeyCode::KEY_LEFTALT, 1), Verdict::Pass);
    assert_eq!(fsm.on_key(KeyCode::KEY_F2, 1), switch(2));
    // Repeats and release of the F-key are swallowed.
    assert_eq!(fsm.on_key(KeyCode::KEY_F2, 2), Verdict::Swallow);
    assert_eq!(fsm.on_key(KeyCode::KEY_F2, 0), Verdict::Swallow);
    // Modifier releases are swallowed (router synthesizes them on the old target).
    assert_eq!(fsm.on_key(KeyCode::KEY_LEFTALT, 0), Verdict::Swallow);
    assert_eq!(fsm.on_key(KeyCode::KEY_LEFTCTRL, 0), Verdict::Swallow);
    // Modifiers work normally again afterwards.
    assert_eq!(fsm.on_key(KeyCode::KEY_LEFTCTRL, 1), Verdict::Pass);
    assert_eq!(fsm.on_key(KeyCode::KEY_LEFTCTRL, 0), Verdict::Pass);
}

#[test]
fn chained_switch_while_modifiers_held() {
    let mut fsm = HotkeyFsm::default();
    fsm.on_key(KeyCode::KEY_RIGHTCTRL, 1);
    fsm.on_key(KeyCode::KEY_RIGHTALT, 1);
    assert_eq!(fsm.on_key(KeyCode::KEY_F2, 1), switch(2));
    assert_eq!(fsm.on_key(KeyCode::KEY_F2, 0), Verdict::Swallow);
    // Modifiers still physically held: next F-key switches again.
    assert_eq!(fsm.on_key(KeyCode::KEY_F1, 1), switch(1));
    assert_eq!(fsm.on_key(KeyCode::KEY_F1, 0), Verdict::Swallow);
    assert_eq!(fsm.on_key(KeyCode::KEY_RIGHTALT, 0), Verdict::Swallow);
    assert_eq!(fsm.on_key(KeyCode::KEY_RIGHTCTRL, 0), Verdict::Swallow);
}

/// Pressing the same slot's combo again re-emits `SwitchTo`. With Shift
/// that is the re-assert the router turns into a hook re-fire, so a side
/// effect that didn't take can be retried without switching anywhere.
/// Auto-repeat must NOT do this — only discrete presses.
#[test]
fn re_pressing_the_same_slot_emits_again_but_auto_repeat_does_not() {
    let mut fsm = HotkeyFsm::default();
    fsm.on_key(KeyCode::KEY_LEFTCTRL, 1);
    fsm.on_key(KeyCode::KEY_LEFTALT, 1);
    assert_eq!(fsm.on_key(KeyCode::KEY_F2, 1), switch(2));
    // Leaning on the key must not spam the router.
    assert_eq!(fsm.on_key(KeyCode::KEY_F2, 2), Verdict::Swallow);
    assert_eq!(fsm.on_key(KeyCode::KEY_F2, 2), Verdict::Swallow);
    assert_eq!(fsm.on_key(KeyCode::KEY_F2, 0), Verdict::Swallow);
    // A fresh press of the same F-key does, with the modifiers still down.
    assert_eq!(fsm.on_key(KeyCode::KEY_F2, 1), switch(2));
    assert_eq!(fsm.on_key(KeyCode::KEY_F2, 0), Verdict::Swallow);
    // And again after fully releasing and re-forming the combo.
    assert_eq!(fsm.on_key(KeyCode::KEY_LEFTALT, 0), Verdict::Swallow);
    assert_eq!(fsm.on_key(KeyCode::KEY_LEFTCTRL, 0), Verdict::Swallow);
    fsm.on_key(KeyCode::KEY_LEFTCTRL, 1);
    fsm.on_key(KeyCode::KEY_LEFTALT, 1);
    assert_eq!(fsm.on_key(KeyCode::KEY_F2, 1), switch(2));
}

#[test]
fn combo_hold_is_visible_until_the_fkey_is_released() {
    let mut fsm = HotkeyFsm::default();
    assert_eq!(fsm.combo_slot_held(), None);
    fsm.on_key(KeyCode::KEY_LEFTCTRL, 1);
    fsm.on_key(KeyCode::KEY_LEFTALT, 1);
    assert_eq!(fsm.on_key(KeyCode::KEY_F4, 1), switch(4));
    assert_eq!(fsm.combo_slot_held(), Some(4));
    // Auto-repeat while holding does not disturb it.
    fsm.on_key(KeyCode::KEY_F4, 2);
    assert_eq!(fsm.combo_slot_held(), Some(4));
    // Releasing a modifier first is still a held F-key.
    fsm.on_key(KeyCode::KEY_LEFTALT, 0);
    assert_eq!(fsm.combo_slot_held(), Some(4));
    fsm.on_key(KeyCode::KEY_F4, 0);
    assert_eq!(fsm.combo_slot_held(), None);
}

#[test]
fn chaining_moves_the_hold_to_the_new_slot() {
    let mut fsm = HotkeyFsm::default();
    fsm.on_key(KeyCode::KEY_LEFTCTRL, 1);
    fsm.on_key(KeyCode::KEY_LEFTALT, 1);
    fsm.on_key(KeyCode::KEY_F2, 1);
    assert_eq!(fsm.combo_slot_held(), Some(2));
    fsm.on_key(KeyCode::KEY_F3, 1);
    assert_eq!(fsm.combo_slot_held(), Some(3));
    // Releasing the earlier key must not clear the current hold.
    fsm.on_key(KeyCode::KEY_F2, 0);
    assert_eq!(fsm.combo_slot_held(), Some(3));
    fsm.on_key(KeyCode::KEY_F3, 0);
    assert_eq!(fsm.combo_slot_held(), None);
}

#[test]
fn an_fkey_without_the_combo_is_not_a_hold() {
    let mut fsm = HotkeyFsm::default();
    fsm.on_key(KeyCode::KEY_LEFTCTRL, 1);
    assert_eq!(fsm.on_key(KeyCode::KEY_F2, 1), Verdict::Pass);
    assert_eq!(fsm.combo_slot_held(), None);
}

#[test]
fn interleaved_keys_unaffected() {
    let mut fsm = HotkeyFsm::default();
    fsm.on_key(KeyCode::KEY_LEFTCTRL, 1);
    fsm.on_key(KeyCode::KEY_LEFTALT, 1);
    assert_eq!(fsm.on_key(KeyCode::KEY_X, 1), Verdict::Pass);
    assert_eq!(fsm.on_key(KeyCode::KEY_F3, 1), switch(3));
    // Non-combo key keeps passing after the switch.
    assert_eq!(fsm.on_key(KeyCode::KEY_X, 0), Verdict::Pass);
}

/// Shift is what asks for the hooks, and it is swallowed like the other
/// combo modifiers — a Shift release leaking to the target would land in
/// whatever the user types next.
#[test]
fn shift_asks_for_the_hooks_and_is_swallowed() {
    let mut fsm = HotkeyFsm::default();
    assert_eq!(fsm.on_key(KeyCode::KEY_LEFTCTRL, 1), Verdict::Pass);
    assert_eq!(fsm.on_key(KeyCode::KEY_LEFTALT, 1), Verdict::Pass);
    assert_eq!(fsm.on_key(KeyCode::KEY_LEFTSHIFT, 1), Verdict::Pass);
    assert_eq!(fsm.on_key(KeyCode::KEY_F3, 1), switch_and_fire(3));
    assert_eq!(fsm.on_key(KeyCode::KEY_F3, 0), Verdict::Swallow);
    assert_eq!(fsm.on_key(KeyCode::KEY_LEFTSHIFT, 0), Verdict::Swallow);
    assert_eq!(fsm.on_key(KeyCode::KEY_LEFTALT, 0), Verdict::Swallow);
    assert_eq!(fsm.on_key(KeyCode::KEY_LEFTCTRL, 0), Verdict::Swallow);
    // Shift is an ordinary key again straight afterwards.
    assert_eq!(fsm.on_key(KeyCode::KEY_LEFTSHIFT, 1), Verdict::Pass);
    assert_eq!(fsm.on_key(KeyCode::KEY_A, 1), Verdict::Pass);
    assert_eq!(fsm.on_key(KeyCode::KEY_A, 0), Verdict::Pass);
    assert_eq!(fsm.on_key(KeyCode::KEY_LEFTSHIFT, 0), Verdict::Pass);
}

#[test]
fn either_shift_works() {
    let mut fsm = HotkeyFsm::default();
    fsm.on_key(KeyCode::KEY_RIGHTCTRL, 1);
    fsm.on_key(KeyCode::KEY_RIGHTALT, 1);
    fsm.on_key(KeyCode::KEY_RIGHTSHIFT, 1);
    assert_eq!(fsm.on_key(KeyCode::KEY_F5, 1), switch_and_fire(5));
    assert_eq!(fsm.on_key(KeyCode::KEY_RIGHTSHIFT, 0), Verdict::Swallow);
}

/// The flag is read at the moment of the press, not latched: chaining from
/// a hook switch to a silent one must not carry the hooks along.
#[test]
fn dropping_shift_makes_the_next_switch_silent_again() {
    let mut fsm = HotkeyFsm::default();
    fsm.on_key(KeyCode::KEY_LEFTCTRL, 1);
    fsm.on_key(KeyCode::KEY_LEFTALT, 1);
    fsm.on_key(KeyCode::KEY_LEFTSHIFT, 1);
    assert_eq!(fsm.on_key(KeyCode::KEY_F2, 1), switch_and_fire(2));
    assert_eq!(fsm.on_key(KeyCode::KEY_F2, 0), Verdict::Swallow);
    assert_eq!(fsm.on_key(KeyCode::KEY_LEFTSHIFT, 0), Verdict::Swallow);
    // Ctrl+Alt still down, Shift gone: a plain switch.
    assert_eq!(fsm.on_key(KeyCode::KEY_F3, 1), switch(3));
    // And picking Shift back up asks for the hooks again.
    fsm.on_key(KeyCode::KEY_F3, 0);
    fsm.on_key(KeyCode::KEY_LEFTSHIFT, 1);
    assert_eq!(fsm.on_key(KeyCode::KEY_F4, 1), switch_and_fire(4));
}

/// Shift only means anything on top of the full combo; on its own it is a
/// modifier like any other and Shift+F<n> stays an application shortcut.
#[test]
fn shift_alone_is_not_the_hotkey() {
    let mut fsm = HotkeyFsm::default();
    assert_eq!(fsm.on_key(KeyCode::KEY_LEFTSHIFT, 1), Verdict::Pass);
    assert_eq!(fsm.on_key(KeyCode::KEY_F2, 1), Verdict::Pass);
    assert_eq!(fsm.on_key(KeyCode::KEY_F2, 0), Verdict::Pass);
    assert_eq!(fsm.combo_slot_held(), None);
    // Ctrl+Shift+F2 is still short of the combo.
    fsm.on_key(KeyCode::KEY_LEFTCTRL, 1);
    assert_eq!(fsm.on_key(KeyCode::KEY_F2, 1), Verdict::Pass);
    assert_eq!(fsm.combo_slot_held(), None);
}

/// The re-pair hold is about the held F-key, not about Shift: both combos
/// arm it, so there is one rule to remember rather than two.
#[test]
fn the_shift_combo_arms_the_repair_hold_too() {
    let mut fsm = HotkeyFsm::default();
    fsm.on_key(KeyCode::KEY_LEFTCTRL, 1);
    fsm.on_key(KeyCode::KEY_LEFTALT, 1);
    fsm.on_key(KeyCode::KEY_LEFTSHIFT, 1);
    assert_eq!(fsm.on_key(KeyCode::KEY_F2, 1), switch_and_fire(2));
    assert_eq!(fsm.combo_slot_held(), Some(2));
    fsm.on_key(KeyCode::KEY_F2, 0);
    assert_eq!(fsm.combo_slot_held(), None);
}

fn macro_fsm(combos: &[&str]) -> HotkeyFsm {
    HotkeyFsm::with_macros(combos.iter().map(|s| KeyCombo::from_str(s).unwrap()).collect())
}

/// The macro verdict, with the modifiers the router has to release.
fn run_macro(index: usize, held_mods: &[u16]) -> Verdict {
    Verdict::RunMacro { index, held_mods: held_mods.to_vec() }
}

#[test]
fn macro_fires_and_swallows_like_a_switch() {
    let mut fsm = macro_fsm(&["ctrl+alt+kp1"]);
    assert_eq!(fsm.on_key(KeyCode::KEY_LEFTCTRL, 1), Verdict::Pass);
    assert_eq!(fsm.on_key(KeyCode::KEY_RIGHTALT, 1), Verdict::Pass);
    assert_eq!(
        fsm.on_key(KeyCode::KEY_KP1, 1),
        run_macro(0, &[KeyCode::KEY_LEFTCTRL, KeyCode::KEY_RIGHTALT])
    );
    // Leaning on the key does not re-fire; release is swallowed.
    assert_eq!(fsm.on_key(KeyCode::KEY_KP1, 2), Verdict::Swallow);
    assert_eq!(fsm.on_key(KeyCode::KEY_KP1, 0), Verdict::Swallow);
    // A discrete re-press with the modifiers still down fires again.
    assert_eq!(
        fsm.on_key(KeyCode::KEY_KP1, 1),
        run_macro(0, &[KeyCode::KEY_LEFTCTRL, KeyCode::KEY_RIGHTALT])
    );
    assert_eq!(fsm.on_key(KeyCode::KEY_KP1, 0), Verdict::Swallow);
    assert_eq!(fsm.on_key(KeyCode::KEY_RIGHTALT, 0), Verdict::Swallow);
    assert_eq!(fsm.on_key(KeyCode::KEY_LEFTCTRL, 0), Verdict::Swallow);
    // Modifiers are ordinary again.
    assert_eq!(fsm.on_key(KeyCode::KEY_LEFTCTRL, 1), Verdict::Pass);
    assert_eq!(fsm.on_key(KeyCode::KEY_LEFTCTRL, 0), Verdict::Pass);
    // No re-pair hold for macros.
    assert_eq!(fsm.combo_slot_held(), None);
}

/// Exact modifier match: an extra Shift is a different combo.
#[test]
fn macro_needs_the_exact_modifier_set() {
    let mut fsm = macro_fsm(&["ctrl+alt+kp1", "ctrl+alt+shift+kp2"]);
    fsm.on_key(KeyCode::KEY_LEFTCTRL, 1);
    fsm.on_key(KeyCode::KEY_LEFTALT, 1);
    fsm.on_key(KeyCode::KEY_LEFTSHIFT, 1);
    assert_eq!(fsm.on_key(KeyCode::KEY_KP1, 1), Verdict::Pass);
    assert_eq!(fsm.on_key(KeyCode::KEY_KP1, 0), Verdict::Pass);
    assert_eq!(
        fsm.on_key(KeyCode::KEY_KP2, 1),
        run_macro(1, &[KeyCode::KEY_LEFTCTRL, KeyCode::KEY_LEFTALT, KeyCode::KEY_LEFTSHIFT])
    );
    assert_eq!(fsm.on_key(KeyCode::KEY_KP2, 0), Verdict::Swallow);
    assert_eq!(fsm.on_key(KeyCode::KEY_LEFTSHIFT, 0), Verdict::Swallow);
    // Shift gone: now the first macro matches, the second does not.
    assert_eq!(fsm.on_key(KeyCode::KEY_KP2, 1), Verdict::Pass);
    assert_eq!(fsm.on_key(KeyCode::KEY_KP2, 0), Verdict::Pass);
    assert_eq!(
        fsm.on_key(KeyCode::KEY_KP1, 1),
        run_macro(0, &[KeyCode::KEY_LEFTCTRL, KeyCode::KEY_LEFTALT])
    );
    // Missing a modifier is a plain key.
    fsm.on_key(KeyCode::KEY_KP1, 0);
    fsm.on_key(KeyCode::KEY_LEFTALT, 0);
    assert_eq!(fsm.on_key(KeyCode::KEY_KP1, 1), Verdict::Pass);
}

#[test]
fn bare_and_super_macros() {
    let mut fsm = macro_fsm(&["prog1", "super+kp3"]);
    // Nothing to release for a bare key.
    assert_eq!(fsm.on_key(KeyCode::KEY_PROG1, 1), run_macro(0, &[]));
    assert_eq!(fsm.on_key(KeyCode::KEY_PROG1, 0), Verdict::Swallow);
    // A bare macro does not fire with a modifier down.
    fsm.on_key(KeyCode::KEY_LEFTMETA, 1);
    assert_eq!(fsm.on_key(KeyCode::KEY_PROG1, 1), Verdict::Pass);
    fsm.on_key(KeyCode::KEY_PROG1, 0);
    assert_eq!(fsm.on_key(KeyCode::KEY_KP3, 1), run_macro(1, &[KeyCode::KEY_LEFTMETA]));
    assert_eq!(fsm.on_key(KeyCode::KEY_KP3, 0), Verdict::Swallow);
    assert_eq!(fsm.on_key(KeyCode::KEY_LEFTMETA, 0), Verdict::Swallow);
}

#[test]
fn switch_combos_are_unaffected_by_macros() {
    let mut fsm = macro_fsm(&["ctrl+alt+kp1", "ctrl+alt+shift+a"]);
    fsm.on_key(KeyCode::KEY_LEFTCTRL, 1);
    fsm.on_key(KeyCode::KEY_LEFTALT, 1);
    assert_eq!(fsm.on_key(KeyCode::KEY_F2, 1), switch(2));
    assert_eq!(fsm.on_key(KeyCode::KEY_F2, 0), Verdict::Swallow);
    assert!(matches!(fsm.on_key(KeyCode::KEY_KP1, 1), Verdict::RunMacro { index: 0, .. }));
    fsm.on_key(KeyCode::KEY_KP1, 0);
    fsm.on_key(KeyCode::KEY_LEFTSHIFT, 1);
    assert_eq!(fsm.on_key(KeyCode::KEY_F3, 1), switch_and_fire(3));
    assert!(matches!(fsm.on_key(KeyCode::KEY_A, 1), Verdict::RunMacro { index: 1, .. }));
    // Plain keys still pass with no macro configured for them.
    assert_eq!(fsm.on_key(KeyCode::KEY_X, 1), Verdict::Pass);
}
