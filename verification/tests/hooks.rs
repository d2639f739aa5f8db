//! Which hooks and macros run, and how.

use km_hub::config::{Hook, HookCommand};
use km_hub::hooks::{command_line, select_hooks, select_macro, MAX_IN_FLIGHT};
use km_hub::time::Duration;

fn hook(slot: u8) -> Hook {
    Hook {
        slot,
        label: format!("slot {slot}"),
        command: HookCommand::Shell("true".to_string()),
        timeout: Duration::from_secs(10),
    }
}

#[test]
fn the_hooks_of_the_slot_run_in_order() {
    let hooks = [hook(2), hook(3), hook(2), hook(1)];
    let picked = select_hooks(&hooks, 2, 0);
    assert_eq!(picked.run, vec![0, 2]);
    assert!(picked.skipped.is_empty());
    assert!(select_hooks(&hooks, 9, 0).run.is_empty());
}

#[test]
fn no_more_commands_run_than_there_is_room_for() {
    let hooks = [hook(2), hook(2), hook(2)];
    let picked = select_hooks(&hooks, 2, MAX_IN_FLIGHT - 1);
    assert_eq!(picked.run, vec![0]);
    assert_eq!(picked.skipped, vec![1, 2]);
    assert!(select_hooks(&hooks, 2, MAX_IN_FLIGHT + 3).run.is_empty());
    assert!(select_macro(2, 1, MAX_IN_FLIGHT - 1));
    assert!(!select_macro(2, 1, MAX_IN_FLIGHT));
    assert!(!select_macro(2, 2, 0));
}

#[test]
fn only_the_shell_form_goes_through_a_shell() {
    let line = command_line(&HookCommand::Shell("echo $X | cat".to_string()));
    assert_eq!(line.program, "sh");
    assert_eq!(line.args, vec!["-c", "echo $X | cat"]);
    let line = command_line(&HookCommand::Argv(vec!["/bin/echo".to_string(), "$X".to_string()]));
    assert_eq!(line.program, "/bin/echo");
    assert_eq!(line.args, vec!["$X"]);
}
