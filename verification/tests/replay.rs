//! Frames held for a host that is between connections.

use km_hub::bt::gatt::{REPORT_ID_CONSUMER, REPORT_ID_KEYBOARD, REPORT_ID_MOUSE};
use km_hub::bt::replay::{Push, ReplayBuffer, CAPACITY};
use km_hub::hid::HidFrame;

fn key(usage: u8) -> HidFrame {
    HidFrame::Keyboard([REPORT_ID_KEYBOARD, 0, 0, usage, 0, 0, 0, 0, 0])
}

fn mouse(buttons: u8, dx: u8) -> HidFrame {
    HidFrame::Mouse([REPORT_ID_MOUSE, buttons, dx, 0, 0])
}

#[test]
fn motion_is_dropped_but_button_changes_are_kept() {
    let mut b = ReplayBuffer::new();
    assert_eq!(b.push(mouse(0, 5)), Push::DroppedMotion);
    assert_eq!(b.push(mouse(1, 0)), Push::Queued); // press
    assert_eq!(b.push(mouse(1, 3)), Push::DroppedMotion); // drag
    assert_eq!(b.push(mouse(0, 0)), Push::Queued); // release
    assert_eq!(b.take(REPORT_ID_MOUSE), vec![mouse(1, 0), mouse(0, 0)]);
    assert_eq!(b.stats(), (2, 0));
}

#[test]
fn keys_and_media_keys_are_kept_in_order() {
    let mut b = ReplayBuffer::new();
    b.push(key(0x04));
    b.push(HidFrame::Consumer([REPORT_ID_CONSUMER, 0xe9, 0]));
    b.push(key(0));
    assert_eq!(b.take(REPORT_ID_KEYBOARD), vec![key(0x04), key(0)]);
    // The consumer frame waits for its own report.
    assert_eq!(b.len(), 1);
    assert_eq!(b.take(REPORT_ID_CONSUMER), vec![HidFrame::Consumer([REPORT_ID_CONSUMER, 0xe9, 0])]);
    assert!(b.is_empty());
}

#[test]
fn a_full_buffer_evicts_the_oldest() {
    let mut b = ReplayBuffer::new();
    for i in 0..CAPACITY {
        assert_eq!(b.push(key(i as u8)), Push::Queued);
    }
    assert_eq!(b.push(key(0xff)), Push::Evicted);
    let frames = b.take(REPORT_ID_KEYBOARD);
    assert_eq!(frames.len(), CAPACITY);
    assert_eq!(frames[0], key(1));
    assert_eq!(frames[CAPACITY - 1], key(0xff));
    assert_eq!(b.stats(), (0, 1));
}

#[test]
fn take_of_an_unqueued_report_is_empty() {
    let mut b = ReplayBuffer::new();
    b.push(key(0x04));
    assert!(b.take(REPORT_ID_MOUSE).is_empty());
    assert_eq!(b.len(), 1);
}
