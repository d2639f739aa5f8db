//! The connection manager, the transports and what surrounds them.

use std::collections::HashSet;

use km_hub::bt::addr::Address;
use km_hub::bt::agent::{agent_reply, AgentReply, AgentRequest};
use km_hub::bt::dial::{DialOutcome, Dialer};
use km_hub::bt::gatt::{LeTransport, REPORT_ID_CONSUMER, REPORT_ID_KEYBOARD, REPORT_ID_MOUSE};
use km_hub::bt::manager::{
    wants_advertising, AdvChange, Arrival, Manager, Plan, Route, StuckStep, Visibility, WindowPoll,
};
use km_hub::bt::replay::Push;
use km_hub::bt::sdp::hid_service_record;
use km_hub::bt::transport::{
    interrupt_frame, Answer, ControlChannel, L2capTransport, LogTransport, Mismatched, Transport,
};
use km_hub::bt::{device_path, is_combo_class, BtCmd, TransportKind};
use km_hub::config::{
    default_alias, default_mouse_rate_hz, Connections, RawConfig, RawTarget, Settings, LOCAL_SLOT,
};
use km_hub::hid::{descriptor_hex, HidFrame};
use km_hub::state::{Binding, Bindings};
use km_hub::time::{Duration, Instant};


fn addr(last: u8) -> Address {
    Address::new([0xAA, 0xBB, 0xCC, 0xDD, 0xEE, last])
}

#[test]
fn all_mode_advertises_while_any_bound_host_is_away() {
    let bound = [addr(1), addr(2)];
    let here: HashSet<u64> = [addr(1).raw].into_iter().collect();
    assert!(wants_advertising(Connections::All, Some(addr(1)), &bound, &here));
    let both: HashSet<u64> = bound.iter().map(|a| a.raw).collect();
    assert!(!wants_advertising(Connections::All, Some(addr(1)), &bound, &both));
    // Bound hosts away, local slot active: still advertise — they may come back.
    assert!(wants_advertising(Connections::All, None, &bound, &here));
}

#[test]
fn single_mode_advertises_only_for_the_active_host() {
    let bound = [addr(1), addr(2)];
    let none = HashSet::new();
    assert!(wants_advertising(Connections::Single, Some(addr(2)), &bound, &none));
    let two: HashSet<u64> = [addr(2).raw].into_iter().collect();
    assert!(!wants_advertising(Connections::Single, Some(addr(2)), &bound, &two));
    // The other host being away is not our concern.
    let one: HashSet<u64> = [addr(1).raw].into_iter().collect();
    assert!(wants_advertising(Connections::Single, Some(addr(2)), &bound, &one));
}

#[test]
fn single_mode_never_advertises_for_the_local_or_an_unbound_slot() {
    let bound = [addr(1), addr(2)];
    let none = HashSet::new();
    assert!(!wants_advertising(Connections::Single, None, &bound, &none));
}

fn at(secs: u64) -> Instant {
    Instant { nanos: u128::from(secs) * 1_000_000_000 }
}

fn settings(connections: Connections) -> Settings {
    Settings::parse(&RawConfig {
        adapter_alias: default_alias(),
        devices: None,
        mouse_rate_hz: default_mouse_rate_hz(),
        connections,
        rgb: None,
        targets: vec![RawTarget {
            name: "desk".to_string(),
            slot: 4,
            mac: None,
            color: None,
            brightness: None,
        }],
        hooks: Vec::new(),
        macros: Vec::new(),
    })
    .unwrap()
}

fn bindings(slots: &[u8]) -> Bindings {
    let mut out = Bindings::new();
    for &slot in slots {
        out.insert(slot, Binding { addr: addr(slot), name: format!("host {slot}"), from_config: false });
    }
    out
}

fn manager(connections: Connections, kind: TransportKind, slots: &[u8], active: u8) -> Manager {
    Manager::new(settings(connections), kind, bindings(slots), active)
}

fn raws(list: &[u8]) -> HashSet<u64> {
    list.iter().map(|&n| addr(n).raw).collect()
}

fn le() -> Transport {
    Transport::Le(LeTransport::serve())
}

fn subscribe(t: &mut Transport, peer: Address, ids: &[u8]) {
    if let Transport::Le(l) = t {
        for &id in ids {
            l.subscribe(peer, id);
        }
    }
}

const ALL_REPORTS: [u8; 3] = [REPORT_ID_KEYBOARD, REPORT_ID_MOUSE, REPORT_ID_CONSUMER];

fn key(usage: u8) -> HidFrame {
    HidFrame::Keyboard([1, 0, 0, usage, 0, 0, 0, 0, 0])
}

#[test]
fn a_window_binds_the_first_new_host_and_settles() {
    let mut m = manager(Connections::All, TransportKind::Le, &[2], LOCAL_SLOT);
    assert_eq!(m.handle_cmd(BtCmd::OpenPairingWindow { slot: 2 }), Plan::Nothing);
    assert_eq!(m.handle_cmd(BtCmd::OpenPairingWindow { slot: 4 }), Plan::Open { slot: 4 });
    assert!(m.may_open(4));
    m.open_window(4, &[addr(7)], at(10));
    assert_eq!(m.poll_window(at(11)), WindowPoll::Look);
    assert!(!m.is_candidate(addr(2)), "bound already");
    assert!(!m.is_candidate(addr(7)), "paired before the window opened");
    assert!(m.is_candidate(addr(9)));

    let mut t = le();
    assert_eq!(m.on_incoming_peer(&mut t, addr(9), at(11)), Arrival::AskBond { slot: 4 });
    m.bind(addr(9), "their name".to_string());
    // The config names the slot.
    assert_eq!(m.bindings()[&4].name, "desk");
    assert_eq!(m.bindings()[&4].addr, addr(9));
    assert!(!m.bindings()[&4].from_config);
    assert_eq!(m.poll_window(at(12)), WindowPoll::Idle);
    assert_eq!(m.on_incoming_peer(&mut t, addr(9), at(12)), Arrival::Keep);
    assert_eq!(m.on_incoming_peer(&mut t, addr(8), at(12)), Arrival::Dropped);
    assert_eq!(m.poll_window(at(69)), WindowPoll::Idle);
    assert_eq!(m.poll_window(at(70)), WindowPoll::Expired);
    // A settled window is not visible any more.
    assert_eq!(m.close_window(), Some(false));
    assert_eq!(m.close_window(), None);
}

#[test]
fn a_slot_without_a_target_takes_the_devices_own_name() {
    let mut m = manager(Connections::All, TransportKind::Le, &[], LOCAL_SLOT);
    m.open_window(5, &[], at(0));
    m.bind(addr(1), "pixel".to_string());
    assert_eq!(m.bindings()[&5].name, "pixel");
}

#[test]
fn an_unsettled_window_is_hidden_when_it_closes() {
    let mut m = manager(Connections::All, TransportKind::L2cap, &[], LOCAL_SLOT);
    m.open_window(3, &[], at(0));
    assert_eq!(m.set_visible(true), Visibility::Discoverable(true));
    assert_eq!(m.close_window(), Some(true));
    assert_eq!(m.set_visible(false), Visibility::Discoverable(false));
    let le_mode = manager(Connections::All, TransportKind::Le, &[], LOCAL_SLOT);
    assert_eq!(le_mode.set_visible(true), Visibility::Advertise);
    assert_eq!(le_mode.set_visible(false), Visibility::Follow);
}

#[test]
fn a_forced_re_pair_unbinds_the_slot_alone() {
    let mut m = manager(Connections::All, TransportKind::Le, &[2, 3], 2);
    assert_eq!(
        m.handle_cmd(BtCmd::RepairSlot { slot: 2 }),
        Plan::Unpair { slot: 2, addr: addr(2), from_config: false }
    );
    assert!(!m.bindings().contains_key(&2));
    assert!(m.bindings().contains_key(&3));
    assert!(m.may_open(2));
    m.open_window(2, &[], at(0));
    // The hold that followed the press has nothing left to undo.
    assert_eq!(m.handle_cmd(BtCmd::RepairSlot { slot: 2 }), Plan::Nothing);
    assert_eq!(m.handle_cmd(BtCmd::RepairSlot { slot: 5 }), Plan::Open { slot: 5 });
}

#[test]
fn a_stale_binding_reopens_its_window() {
    let mut m = manager(Connections::All, TransportKind::L2cap, &[2], 2);
    assert_eq!(m.dial_target(2), Some(addr(2)));
    assert_eq!(m.dial_target(LOCAL_SLOT), None);
    assert_eq!(
        m.heal_stale_binding(2),
        Plan::Reopen { slot: 2, addr: addr(2), from_config: false }
    );
    assert_eq!(m.heal_stale_binding(2), Plan::Nothing);
    assert_eq!(m.dial_target(2), None);
}

#[test]
fn strangers_outside_a_window_are_dropped() {
    let mut m = manager(Connections::All, TransportKind::L2cap, &[2], 2);
    let mut t = Transport::L2cap(L2capTransport::bound());
    t.add_outgoing(addr(2));
    t.add_outgoing(addr(9));
    assert_eq!(m.on_incoming_peer(&mut t, addr(9), at(0)), Arrival::Dropped);
    assert!(!t.is_peer_connected(addr(9)));
    assert!(t.is_peer_connected(addr(2)));
    assert_eq!(m.on_incoming_peer(&mut t, addr(2), at(0)), Arrival::Keep);
}

#[test]
fn single_mode_sends_an_inactive_host_away_once_per_cooldown() {
    let mut m = manager(Connections::Single, TransportKind::Le, &[2, 3], 2);
    let mut t = le();
    subscribe(&mut t, addr(3), &ALL_REPORTS);
    subscribe(&mut t, addr(2), &ALL_REPORTS);
    assert_eq!(m.poll_uninvited(&mut t, &raws(&[2, 3]), at(100)), vec![addr(3)]);
    assert!(!t.is_peer_connected(addr(3)));
    assert!(t.is_peer_connected(addr(2)));
    // It lingers, but is not told again before the cooldown is over.
    assert!(m.poll_uninvited(&mut t, &raws(&[2, 3]), at(104)).is_empty());
    assert_eq!(m.poll_uninvited(&mut t, &raws(&[2, 3]), at(105)), vec![addr(3)]);
    // A window may be how it was bound.
    m.open_window(5, &[], at(120));
    assert!(m.poll_uninvited(&mut t, &raws(&[2, 3]), at(130)).is_empty());
    // With every host kept connected nobody is uninvited.
    let mut all = manager(Connections::All, TransportKind::Le, &[2, 3], 2);
    assert!(all.poll_uninvited(&mut t, &raws(&[2, 3]), at(100)).is_empty());
}

#[test]
fn single_mode_drops_an_inactive_host_that_connects() {
    let mut m = manager(Connections::Single, TransportKind::Le, &[2, 3], 2);
    let mut t = le();
    subscribe(&mut t, addr(3), &ALL_REPORTS);
    assert_eq!(m.on_incoming_peer(&mut t, addr(3), at(1)), Arrival::Dropped);
    assert!(!t.is_peer_connected(addr(3)));
    assert_eq!(m.on_incoming_peer(&mut t, addr(2), at(1)), Arrival::Keep);
    assert!(m.serves(2) && !m.serves(3));
}

#[test]
fn frames_are_held_until_the_host_is_back() {
    let mut m = manager(Connections::Single, TransportKind::Le, &[2, 3], 2);
    let mut t = le();
    subscribe(&mut t, addr(2), &ALL_REPORTS);
    m.arm_pending(&t, at(0));
    assert_eq!(m.route_frame(&t, 2, key(4)), Route::Send(addr(2)));

    assert!(m.is_ahead(3));
    let change = m.on_slot_change(3);
    assert_eq!((change.left, change.drain), (Some(addr(2)), true));
    // A release queued for the host being left still goes there.
    assert_eq!(m.route_frame(&t, 2, key(0)), Route::Send(addr(2)));
    m.finish_slot_change(&t, at(1));
    assert_eq!(m.leave_host(&mut t, change.left, at(1)), Some(addr(2)));
    assert!(!t.is_peer_connected(addr(2)));

    assert_eq!(m.route_frame(&t, 3, key(5)), Route::Held(Push::Queued));
    assert_eq!(m.route_frame(&t, 3, key(0)), Route::Held(Push::Queued));
    assert_eq!(m.route_frame(&t, 3, HidFrame::Mouse([2, 0, 9, 0, 0])), Route::Held(Push::DroppedMotion));
    assert_eq!(m.route_frame(&t, 9, key(1)), Route::Unbound);
    subscribe(&mut t, addr(3), &[REPORT_ID_KEYBOARD]);
    assert_eq!(m.on_subscribed(&t, addr(3), REPORT_ID_KEYBOARD), vec![key(5), key(0)]);
    assert!(!m.finish_replay(&t, addr(3)));
    assert_eq!(m.route_frame(&t, 3, key(6)), Route::Send(addr(3)));
    subscribe(&mut t, addr(3), &[REPORT_ID_MOUSE, REPORT_ID_CONSUMER]);
    assert!(m.on_subscribed(&t, addr(3), REPORT_ID_CONSUMER).is_empty());
    assert!(m.finish_replay(&t, addr(3)));
    assert_eq!(m.poll_pending(at(100)), None);
    assert!(m.can_count(&t, 3, &key(5)));
}

#[test]
fn held_frames_are_given_up_after_the_replay_window() {
    let mut m = manager(Connections::Single, TransportKind::Le, &[2], 2);
    let t = le();
    m.arm_pending(&t, at(0));
    m.route_frame(&t, 2, key(4));
    assert_eq!(m.poll_pending(at(7)), None);
    let gone = m.poll_pending(at(8)).unwrap();
    assert_eq!((gone.addr, gone.held), (addr(2), 1));
    assert_eq!(m.route_frame(&t, 2, key(4)), Route::Send(addr(2)));
}

#[test]
fn all_mode_never_holds_frames() {
    let mut m = manager(Connections::All, TransportKind::Le, &[2], 2);
    let t = le();
    m.arm_pending(&t, at(0));
    assert_eq!(m.route_frame(&t, 2, key(4)), Route::Send(addr(2)));
    let change = m.on_slot_change(LOCAL_SLOT);
    assert!(!change.drain);
    assert_eq!(m.active_slot(), LOCAL_SLOT);
    assert_eq!(m.active_host(), None);
}

#[test]
fn a_deaf_host_is_kicked_then_helped() {
    let mut m = manager(Connections::All, TransportKind::Le, &[2], 2);
    let mut t = le();
    let here = raws(&[2]);
    assert_eq!(m.poll_stuck_hosts(&mut t, &here, at(100)), StuckStep::Nothing);
    assert_eq!(m.poll_stuck_hosts(&mut t, &here, at(102)), StuckStep::Nothing);
    assert_eq!(m.poll_stuck_hosts(&mut t, &here, at(103)), StuckStep::Kick(addr(2)));
    // Back, and deaf again.
    assert_eq!(m.poll_stuck_hosts(&mut t, &raws(&[]), at(104)), StuckStep::Nothing);
    assert_eq!(m.poll_stuck_hosts(&mut t, &here, at(105)), StuckStep::Nothing);
    assert_eq!(m.poll_stuck_hosts(&mut t, &here, at(108)), StuckStep::Reregister(addr(2)));
    m.reregistered(at(108));
    for s in 109..140 {
        assert_eq!(m.poll_stuck_hosts(&mut t, &here, at(s)), StuckStep::Nothing);
    }
    // Once it has been away it counts afresh.
    assert_eq!(m.poll_stuck_hosts(&mut t, &raws(&[]), at(140)), StuckStep::Nothing);
    assert_eq!(m.poll_stuck_hosts(&mut t, &here, at(141)), StuckStep::Nothing);
    assert_eq!(m.poll_stuck_hosts(&mut t, &here, at(144)), StuckStep::Kick(addr(2)));
}

#[test]
fn a_deaf_host_is_left_alone_while_others_listen() {
    let mut m = manager(Connections::All, TransportKind::Le, &[2, 3], 2);
    let mut t = le();
    subscribe(&mut t, addr(3), &ALL_REPORTS);
    let here = raws(&[2, 3]);
    m.poll_stuck_hosts(&mut t, &here, at(100));
    assert_eq!(m.poll_stuck_hosts(&mut t, &here, at(103)), StuckStep::Kick(addr(2)));
    m.poll_stuck_hosts(&mut t, &here, at(104));
    assert_eq!(m.poll_stuck_hosts(&mut t, &here, at(107)), StuckStep::LeaveAlone(addr(2)));
    assert_eq!(m.poll_stuck_hosts(&mut t, &here, at(120)), StuckStep::Nothing);
    assert!(t.is_peer_connected(addr(3)));
    // The classic transport has no such trouble.
    let mut classic = manager(Connections::All, TransportKind::L2cap, &[2], 2);
    assert_eq!(classic.poll_stuck_hosts(&mut t, &here, at(500)), StuckStep::Nothing);
}

#[test]
fn advertising_follows_who_is_expected() {
    let mut m = manager(Connections::Single, TransportKind::Le, &[2, 3], 2);
    assert_eq!(m.apply_advertising(&raws(&[])), AdvChange::Start);
    assert!(!m.replace_advertising());
    m.set_advertising(false);
    assert_eq!(m.apply_advertising(&raws(&[])), AdvChange::Keep);
    assert_eq!(m.apply_advertising(&raws(&[2])), AdvChange::Stop);
    assert_eq!(m.apply_advertising(&raws(&[2])), AdvChange::Keep);
    // An open window owns the advertisement until it settles.
    m.open_window(5, &[], at(0));
    m.set_advertising(true);
    assert_eq!(m.apply_advertising(&raws(&[2])), AdvChange::Keep);
    m.bind(addr(5), "x".to_string());
    assert_eq!(m.apply_advertising(&raws(&[])), AdvChange::Start);
    assert!(m.replace_advertising());
    let mut classic = manager(Connections::All, TransportKind::L2cap, &[2], 2);
    assert_eq!(classic.apply_advertising(&raws(&[])), AdvChange::Keep);
    assert_eq!(classic.bound_hosts(), vec![addr(2)]);
}

#[test]
fn one_dial_at_a_time_with_a_pause_after_a_failure() {
    let mut d = Dialer::new();
    let step = d.step(Some(addr(2)), false, at(0));
    assert_eq!((step.abort, step.start, step.wait_until), (false, Some(addr(2)), None));
    let step = d.step(Some(addr(2)), false, at(0));
    assert_eq!((step.abort, step.start), (false, None));
    // The target changed mid-dial.
    let step = d.step(Some(addr(3)), false, at(1));
    assert_eq!((step.abort, step.start), (true, Some(addr(3))));
    d.on_outcome(DialOutcome::Failed, at(1));
    let step = d.step(Some(addr(3)), false, at(2));
    assert_eq!((step.start, step.wait_until), (None, Some(at(4))));
    assert_eq!(d.step(Some(addr(3)), false, at(4)).start, Some(addr(3)));
    d.on_outcome(DialOutcome::Connected, at(5));
    assert_eq!(d.step(Some(addr(3)), true, at(5)).start, None);
    assert_eq!(d.step(None, false, at(5)).start, None);
    d.on_outcome(DialOutcome::Failed, at(6));
    d.on_cooldown_over();
    assert_eq!(d.step(Some(addr(2)), false, at(6)).start, Some(addr(2)));
    d.on_outcome(DialOutcome::StaleBinding, at(6));
    assert_eq!(d.step(Some(addr(2)), false, at(6)).start, Some(addr(2)));
}

#[test]
fn the_control_channel_answers() {
    let mut c = ControlChannel::new();
    // GET_REPORT, input: the zero state of the report asked for.
    assert_eq!(c.answer(&[0x41, 2]), Answer::Reply(vec![0xA1, 2, 0, 0, 0, 0]));
    assert_eq!(c.answer(&[0x41, 4]), Answer::Reply(vec![0xA1, 4, 0, 0]));
    assert_eq!(c.answer(&[0x49, 1, 9, 0]), Answer::Reply(vec![0xA1, 1, 0, 0, 0, 0, 0, 0, 0, 0]));
    assert_eq!(c.answer(&[0x41]), Answer::Reply(vec![0xA1, 1, 0, 0, 0, 0, 0, 0, 0, 0]));
    // GET_REPORT, feature: the battery, also without an ID.
    assert_eq!(c.answer(&[0x43, 3]), Answer::Reply(vec![0xA3, 3, 100]));
    assert_eq!(c.answer(&[0x43]), Answer::Reply(vec![0xA3, 3, 100]));
    assert_eq!(c.answer(&[0x43, 7]), Answer::Reply(vec![0x03]));
    assert_eq!(c.answer(&[0x42, 1]), Answer::Reply(vec![0x03]));
    assert_eq!(c.answer(&[0x53, 3, 1]), Answer::Reply(vec![0x00]));
    // The protocol reads back as it was set.
    assert_eq!(c.answer(&[0x60]), Answer::Reply(vec![0xA0, 1]));
    assert_eq!(c.answer(&[0x70]), Answer::Reply(vec![0x00]));
    assert_eq!(c.answer(&[0x60]), Answer::Reply(vec![0xA0, 0]));
    assert_eq!(c.answer(&[0x71]), Answer::Reply(vec![0x00]));
    assert_eq!(c.answer(&[0x60]), Answer::Reply(vec![0xA0, 1]));
    assert_eq!(c.answer(&[0x13]), Answer::Nothing);
    assert_eq!(c.answer(&[0x15]), Answer::Close);
    assert_eq!(c.answer(&[0xA2, 1, 2]), Answer::Nothing);
    assert_eq!(c.answer(&[0x00]), Answer::Nothing);
    assert_eq!(c.answer(&[0x90]), Answer::Reply(vec![0x03]));
    assert_eq!(c.answer(&[]), Answer::Close);
}

#[test]
fn interrupt_frames_carry_the_header() {
    assert_eq!(interrupt_frame(&HidFrame::Consumer([4, 0xE9, 0])), vec![0xA1, 4, 0xE9, 0]);
}

#[test]
fn both_channels_have_to_come_from_one_host() {
    let mut t = L2capTransport::bound();
    assert!(t.awaits_control());
    assert_eq!(t.on_interrupt(addr(1)), None);
    t.on_control(addr(1));
    assert!(!t.awaits_control());
    assert_eq!(t.on_interrupt(addr(1)), Some(Ok(addr(1))));
    assert!(t.is_connected(addr(1)));
    t.on_control(addr(1));
    assert_eq!(
        t.on_interrupt(addr(2)),
        Some(Err(Mismatched { control: addr(1), interrupt: addr(2) }))
    );
    assert!(!t.is_connected(addr(2)) && t.awaits_control());
    assert!(t.insert(addr(1)), "replaces the one from the same host");
    assert!(t.drop_peer(addr(1)));
    assert!(!t.drop_peer(addr(1)));
}

#[test]
fn transports_know_what_they_can_do() {
    let log = Transport::Log(LogTransport);
    assert!(log.can_dial() && !log.has_listeners() && log.is_peer_connected(addr(1)));
    assert!(log.is_subscribed(addr(1), 1));
    let mut classic = Transport::L2cap(L2capTransport::bound());
    assert!(classic.can_dial() && classic.has_listeners() && !classic.is_peer_connected(addr(1)));
    classic.add_outgoing(addr(1));
    assert!(classic.is_subscribed(addr(1), 4));
    classic.drop_peer(addr(1));
    assert!(!classic.is_peer_connected(addr(1)));
    let low_energy = le();
    assert!(!low_energy.can_dial() && low_energy.has_listeners());
}

#[test]
fn the_agent_accepts_all_but_passkey_entry() {
    assert_eq!(agent_reply(AgentRequest::PinCode), AgentReply::PinCode("0000".to_string()));
    assert_eq!(agent_reply(AgentRequest::Passkey), AgentReply::Reject);
    for request in [
        AgentRequest::DisplayPinCode,
        AgentRequest::DisplayPasskey,
        AgentRequest::Confirmation,
        AgentRequest::Authorization,
        AgentRequest::Service,
    ] {
        assert_eq!(agent_reply(request), AgentReply::Accept);
    }
}

#[test]
fn only_the_major_and_minor_class_bits_count() {
    assert!(is_combo_class(0x0005C0));
    assert!(is_combo_class(0x2C05C0));
    assert!(!is_combo_class(0x000540));
    assert!(!is_combo_class(0x000104));
}

#[test]
fn the_service_record_embeds_name_and_descriptor() {
    let record = hid_service_record("KMHub");
    assert!(record.starts_with("<?xml version=\"1.0\" encoding=\"UTF-8\" ?>\n<record>"));
    assert!(record.contains("<text value=\"KMHub\"/>"));
    assert!(record.contains(&format!("<text encoding=\"hex\" value=\"{}\"/>", descriptor_hex())));
    assert!(record.ends_with("</record>\n"));
    assert!(descriptor_hex().starts_with("05010906a1018501"));
    assert_ne!(record, hid_service_record("Other"));
}

#[test]
fn addresses_read_and_print() {
    let a = Address::from_str("aa:bb:0C:dd:ee:01").unwrap();
    assert_eq!(a.to_octets(), [0xAA, 0xBB, 0x0C, 0xDD, 0xEE, 0x01]);
    assert_eq!(a.to_string(), "AA:BB:0C:DD:EE:01");
    assert_eq!(Address::new(a.to_octets()), a);
    assert_eq!(a.to_string(), bluer::Address::new(a.to_octets()).to_string());
    for bad in ["", "aa:bb:cc:dd:ee", "aa:bb:cc:dd:ee:ff:00", "gg:bb:cc:dd:ee:ff", "100:0:0:0:0:0"] {
        assert!(Address::from_str(bad).is_err(), "{bad}");
    }
    assert_eq!(device_path("hci0", a), "/org/bluez/hci0/dev_AA_BB_0C_DD_EE_01");
}

#[test]
fn spans_are_counted_from_earlier_instants_only() {
    assert_eq!(at(5).duration_since(at(2)), Duration::from_secs(3));
    assert_eq!(at(2).duration_since(at(5)), Duration::from_secs(0));
}
