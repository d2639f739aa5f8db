//! HID over GATT: the database, the advertisement and the subscriptions.

use km_hub::bt::addr::Address;
use km_hub::bt::gatt::{
    advertisement, build_hid_application, hid_information_value, is_motion_only, pnp_id_value,
    read_at_offset, report_reference, Busy, Characteristic, Delivery, LeTransport, ReportRef,
    ReqError, WriteKind, APPEARANCE_HID_KEYBOARD, CHR_HID_CONTROL_POINT, CHR_HID_INFORMATION,
    CHR_PROTOCOL_MODE, CHR_REPORT, CHR_REPORT_MAP, REPORT_ID_CONSUMER, REPORT_ID_KEYBOARD,
    REPORT_ID_MOUSE, REPORT_TYPE_FEATURE, REPORT_TYPE_INPUT, SVC_BATTERY, SVC_DEVICE_INFO, SVC_HID,
};
use km_hub::hid::{HidFrame, REPORT_DESCRIPTOR};

#[test]
fn hid_information_is_v1_11_remote_wake_normally_connectable() {
    assert_eq!(hid_information_value(), vec![0x11, 0x01, 0x00, 0x03]);
}

#[test]
fn pnp_id_is_usb_linux_foundation() {
    assert_eq!(pnp_id_value(), vec![0x02, 0x6B, 0x1D, 0x01, 0x00, 0x00, 0x01]);
}

#[test]
fn report_reference_encodes_id_and_type() {
    assert_eq!(report_reference(1, REPORT_TYPE_INPUT), vec![1, 1]);
    assert_eq!(report_reference(3, REPORT_TYPE_FEATURE), vec![3, 3]);
}

/// Read Blob hands us the offset of the next chunk; past the end is an
/// error, exactly at the end is an empty (final) chunk.
#[test]
fn read_at_offset_slices_and_rejects_past_end() {
    let v = [1u8, 2, 3, 4];
    assert_eq!(read_at_offset(&v, 0).unwrap(), vec![1, 2, 3, 4]);
    assert_eq!(read_at_offset(&v, 3).unwrap(), vec![4]);
    assert_eq!(read_at_offset(&v, 4).unwrap(), Vec::<u8>::new());
    assert_eq!(read_at_offset(&v, 5), Err(ReqError::InvalidOffset));
    assert_eq!(read_at_offset(&REPORT_DESCRIPTOR, 22).unwrap().len(), REPORT_DESCRIPTOR.len() - 22);
}

#[test]
fn motion_only_detection() {
    assert!(is_motion_only(&HidFrame::Mouse([2, 0, 5, 0, 0]), 0));
    assert!(!is_motion_only(&HidFrame::Mouse([2, 1, 0, 0, 0]), 0)); // press
    assert!(!is_motion_only(&HidFrame::Mouse([2, 0, 0, 0, 0]), 1)); // release
    assert!(!is_motion_only(&HidFrame::Keyboard([1, 0, 0, 0, 0, 0, 0, 0, 0]), 0));
    assert!(!is_motion_only(&HidFrame::Consumer([4, 0, 0]), 0));
}

#[test]
fn advertisement_flags() {
    let adv = advertisement("KMHub", true);
    assert!(adv.service_uuids.contains(&SVC_HID));
    assert_eq!(adv.appearance, Some(APPEARANCE_HID_KEYBOARD));
    assert_eq!(adv.local_name.as_deref(), Some("KMHub"));
    assert_eq!(adv.discoverable, Some(true));
    assert_eq!(advertisement("KMHub", false).discoverable, Some(false));
}

/// The table must agree with the report map: three input reports (IDs
/// 1/2/4) with notifications and a Report Reference each, the battery feature
/// report, and the two auxiliary services HOGP asks for.
#[test]
fn application_shape() {
    let (app, controls) = build_hid_application();
    let uuids: Vec<u16> = app.services.iter().map(|s| s.uuid).collect();
    assert_eq!(uuids, vec![SVC_HID, SVC_BATTERY, SVC_DEVICE_INFO]);
    assert_eq!(controls, vec![REPORT_ID_KEYBOARD, REPORT_ID_MOUSE, REPORT_ID_CONSUMER]);

    let hid = &app.services[0];
    let reports: Vec<&Characteristic> = hid.characteristics.iter().filter(|c| c.uuid == CHR_REPORT).collect();
    assert_eq!(reports.len(), 4, "3 input + 1 feature report");
    for c in &reports {
        assert!(c.report.is_some());
        assert!(c.value.is_some() && c.encrypt_read);
    }
    let notifying = reports.iter().filter(|c| c.notify).count();
    assert_eq!(notifying, 3);
    assert!(hid.characteristics.iter().any(|c| c.uuid == CHR_REPORT_MAP));
    assert!(hid.characteristics.iter().any(|c| c.uuid == CHR_HID_INFORMATION));
    assert!(hid.characteristics.iter().any(|c| c.uuid == CHR_PROTOCOL_MODE));
    assert!(hid.characteristics.iter().any(|c| c.uuid == CHR_HID_CONTROL_POINT));
}

fn addr(last: u8) -> Address {
    Address::new([0xAA, 0xBB, 0xCC, 0xDD, 0xEE, last])
}

#[test]
fn the_database_serves_what_it_declares() {
    let (app, _) = build_hid_application();
    let hid = &app.services[0];
    let map = hid.characteristics.iter().find(|c| c.uuid == CHR_REPORT_MAP).unwrap();
    assert_eq!(map.value.as_deref(), Some(&REPORT_DESCRIPTOR[..]));
    let lens: Vec<usize> = hid
        .characteristics
        .iter()
        .filter(|c| c.notify)
        .map(|c| c.value.as_ref().unwrap().len())
        .collect();
    assert_eq!(lens, vec![8, 4, 2]);
    let battery = hid.characteristics.last().unwrap();
    assert_eq!(battery.value.as_deref(), Some(&[100u8][..]));
    assert_eq!(battery.write, WriteKind::Request);
    assert_eq!(
        battery.report,
        Some(ReportRef { id: 3, report_type: REPORT_TYPE_FEATURE })
    );
    let info = &app.services[2];
    assert_eq!(info.characteristics[0].value.as_deref(), Some(&b"km-hub"[..]));
    assert!(!info.characteristics[0].encrypt_read);
}

/// Reading in chunks of an MTU gives the whole report map.
#[test]
fn chunks_make_the_report_map() {
    let mut got: Vec<u8> = Vec::new();
    loop {
        let rest = read_at_offset(&REPORT_DESCRIPTOR, got.len() as u16).unwrap();
        if rest.is_empty() {
            break;
        }
        got.extend_from_slice(&rest[..rest.len().min(22)]);
    }
    assert_eq!(got, REPORT_DESCRIPTOR.to_vec());
}

#[test]
fn subscriptions_are_counted_per_host() {
    let mut t = LeTransport::serve();
    assert!(t.has_listeners());
    let first = t.subscribe(addr(1), REPORT_ID_KEYBOARD);
    assert!(first.first);
    let second = t.subscribe(addr(1), REPORT_ID_MOUSE);
    assert!(!second.first);
    assert_ne!(first.generation, second.generation);
    assert!(t.subscribe(addr(2), REPORT_ID_MOUSE).first);
    assert!(t.is_peer_connected(addr(1)) && t.is_subscribed(addr(1), REPORT_ID_MOUSE));
    assert!(!t.is_subscribed(addr(2), REPORT_ID_KEYBOARD));

    assert!(t.forget_sub(addr(1), REPORT_ID_KEYBOARD, Some(first.generation)));
    assert!(t.is_peer_connected(addr(1)));
    assert!(t.forget_sub(addr(1), REPORT_ID_MOUSE, None));
    assert!(!t.is_peer_connected(addr(1)));
    assert!(t.is_peer_connected(addr(2)));
    assert!(t.drop_peer(addr(2)));
    assert!(!t.drop_peer(addr(2)));
}

#[test]
fn a_stale_close_does_not_end_a_new_subscription() {
    let mut t = LeTransport::serve();
    let old = t.subscribe(addr(1), REPORT_ID_KEYBOARD);
    let new = t.subscribe(addr(1), REPORT_ID_KEYBOARD);
    assert!(!t.forget_sub(addr(1), REPORT_ID_KEYBOARD, Some(old.generation)));
    assert!(t.is_subscribed(addr(1), REPORT_ID_KEYBOARD));
    assert!(t.forget_sub(addr(1), REPORT_ID_KEYBOARD, Some(new.generation)));
    assert!(!t.is_peer_connected(addr(1)));
}

#[test]
fn only_motion_is_dropped_under_back_pressure() {
    let mut t = LeTransport::serve();
    let motion = HidFrame::Mouse([2, 0, 5, 0, 0]);
    let press = HidFrame::Mouse([2, 1, 0, 0, 0]);
    let drag = HidFrame::Mouse([2, 1, 3, 0, 0]);
    let key = HidFrame::Keyboard([1, 0, 0, 4, 0, 0, 0, 0, 0]);
    assert_eq!(t.send_to(addr(1), &motion), Delivery::NotSubscribed);
    t.subscribe(addr(1), REPORT_ID_MOUSE);
    assert_eq!(t.send_to(addr(1), &motion), Delivery::Attempt);
    assert_eq!(t.send_to(addr(1), &key), Delivery::ReportOff);
    assert_eq!(t.on_busy(addr(1), &motion), Busy::Drop);
    assert_eq!(t.on_busy(addr(1), &press), Busy::Wait);
    t.on_sent(addr(1), &press);
    assert_eq!(t.on_busy(addr(1), &drag), Busy::Drop);
    assert_eq!(t.on_busy(addr(1), &motion), Busy::Wait);
    t.subscribe(addr(1), REPORT_ID_KEYBOARD);
    assert_eq!(t.on_busy(addr(1), &key), Busy::Wait);
    t.on_send_failed(addr(1), &key);
    assert!(!t.is_subscribed(addr(1), REPORT_ID_KEYBOARD));
    assert!(t.is_subscribed(addr(1), REPORT_ID_MOUSE));
    t.set_listening(false);
    assert!(!t.has_listeners());
}
