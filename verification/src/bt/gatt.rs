//! HID over GATT (HOGP): the hub as a Bluetooth LE peripheral.
//!
//! This is the transport Apple's own keyboards and mice use, and the reason
//! it exists here: over classic HID the hub is a *slave* that a macOS/iOS
//! host polls at its leisure — every 34–52 ms in the captures — while an LE
//! connection interval (11.25–15 ms for HID) is a reservation the host keeps.
//!
//! What stands here is the content of the GATT database and of the
//! advertisement, and the book of who has subscribed to what: reports are
//! routed per peer exactly like the L2CAP transport routes by address. Hosts
//! connect to *us* whenever we advertise; there is no dialing on LE.

use std::collections::HashMap;
use vstd::prelude::*;
use vstd::slice::slice_subrange;

use crate::bt::addr::Address;
use crate::hid::{
    HidFrame, BATTERY_LEVEL, BATTERY_REPORT_ID, CONSUMER_REPORT_ID, KEYBOARD_REPORT_ID,
    MOUSE_REPORT_ID, REPORT_DESCRIPTOR,
};
use crate::wire;

verus! {

broadcast use {
    vstd::seq::group_seq_axioms,
    vstd::array::group_array_axioms,
    vstd::slice::group_slice_axioms,
    vstd::std_specs::hash::group_hash_axioms,
};

// Assigned numbers (Bluetooth SIG).
pub const SVC_HID: u16 = 0x1812;

pub const SVC_BATTERY: u16 = 0x180F;

pub const SVC_DEVICE_INFO: u16 = 0x180A;

pub const CHR_HID_INFORMATION: u16 = 0x2A4A;

pub const CHR_REPORT_MAP: u16 = 0x2A4B;

pub const CHR_HID_CONTROL_POINT: u16 = 0x2A4C;

pub const CHR_REPORT: u16 = 0x2A4D;

pub const CHR_PROTOCOL_MODE: u16 = 0x2A4E;

pub const CHR_BATTERY_LEVEL: u16 = 0x2A19;

pub const CHR_MANUFACTURER_NAME: u16 = 0x2A29;

pub const CHR_PNP_ID: u16 = 0x2A50;

pub const DSC_REPORT_REFERENCE: u16 = 0x2908;

/// GAP appearance: HID keyboard. The report map also carries the mouse; a
/// combo advertises as its keyboard half, matching the classic class of
/// device (keyboard/pointing combo).
pub const APPEARANCE_HID_KEYBOARD: u16 = 0x03C1;

/// Report types in a Report Reference descriptor.
pub const REPORT_TYPE_INPUT: u8 = 1;

pub const REPORT_TYPE_FEATURE: u8 = 3;

/// Report IDs from `hid::REPORT_DESCRIPTOR`.
pub const REPORT_ID_KEYBOARD: u8 = KEYBOARD_REPORT_ID;

pub const REPORT_ID_MOUSE: u8 = MOUSE_REPORT_ID;

pub const REPORT_ID_CONSUMER: u8 = CONSUMER_REPORT_ID;

/// The input reports a host subscribes to.
pub const INPUT_REPORT_IDS: [u8; 3] = [KEYBOARD_REPORT_ID, MOUSE_REPORT_ID, CONSUMER_REPORT_ID];

/// PnP ID: vendor ID source USB, VID Linux Foundation, product 1, version 1.0.
/// HOGP requires a PnP ID; not Apple's VID.
pub const PNP_VENDOR_SOURCE_USB: u8 = 0x02;

pub const PNP_VID: u16 = 0x1D6B;

pub const PNP_PID: u16 = 0x0001;

pub const PNP_VERSION: u16 = 0x0100;

/// How long a key/button report may wait for send space before the
/// subscription is declared dead. Short on purpose: while a report waits, the
/// reply to another host's subscription waits on that.
pub const KEY_SEND_TIMEOUT_MS: u64 = 250;

// ---------------------------------------------------------------------------
// Attribute values
// ---------------------------------------------------------------------------

/// bcdHID 1.11, country code 0, flags RemoteWake | NormallyConnectable.
pub open spec fn hid_information() -> Seq<u8> {
    seq![0x11, 0x01, 0x00, 0x03]
}

/// The PnP ID.
pub open spec fn pnp_id() -> Seq<u8> {
    seq![PNP_VENDOR_SOURCE_USB] + wire::le16(PNP_VID) + wire::le16(PNP_PID) + wire::le16(
        PNP_VERSION,
    )
}

/// HID Information: bcdHID 1.11, country code 0, flags RemoteWake |
/// NormallyConnectable.
pub fn hid_information_value() -> (r: Vec<u8>)
    ensures
        r@ == hid_information(),
{
    let mut v: Vec<u8> = Vec::new();
    v.push(0x11);
    v.push(0x01);
    v.push(0x00);
    v.push(0x03);
    assert(v@ =~= hid_information());
    v
}

pub fn pnp_id_value() -> (r: Vec<u8>)
    ensures
        r@ == pnp_id(),
{
    let mut v: Vec<u8> = Vec::new();
    v.push(PNP_VENDOR_SOURCE_USB);
    assert(v@ =~= seq![PNP_VENDOR_SOURCE_USB]);
    wire::put_u16(&mut v, PNP_VID);
    wire::put_u16(&mut v, PNP_PID);
    wire::put_u16(&mut v, PNP_VERSION);
    v
}

/// Report Reference descriptor value: `[report id, report type]`.
pub fn report_reference(id: u8, report_type: u8) -> (r: Vec<u8>)
    ensures
        r@ == seq![id, report_type],
{
    let mut v: Vec<u8> = Vec::new();
    v.push(id);
    v.push(report_type);
    assert(v@ =~= seq![id, report_type]);
    v
}

/// Why a GATT request is refused.
#[derive(Debug, Clone, Copy, PartialEq, Eq, Structural)]
pub enum ReqError {
    InvalidOffset,
}

/// Serve a long attribute value: hosts read past the first MTU with Read Blob
/// requests carrying an offset, and BlueZ hands that offset to us. The report
/// map needs this at the default 23-byte MTU.
pub fn read_at_offset(value: &[u8], offset: u16) -> (r: Result<Vec<u8>, ReqError>)
    ensures
        r matches Ok(v) ==> offset <= value@.len() && v@ == value@.skip(offset as int),
        r is Err ==> offset > value@.len() && r == Err::<Vec<u8>, ReqError>(
            ReqError::InvalidOffset,
        ),
{
    let offset: usize = offset as usize;
    if offset > value.len() {
        return Err(ReqError::InvalidOffset);
    }
    let rest = slice_subrange(value, offset, value.len());
    let mut out: Vec<u8> = Vec::new();
    wire::put_bytes(&mut out, rest);
    assert(out@ =~= value@.skip(offset as int));
    Ok(out)
}

/// Reading a value in chunks, each where the last one ended, gives it whole.
pub proof fn law_chunks_make_the_value(value: Seq<u8>, offset: int, mtu: int)
    requires
        0 <= offset <= value.len(),
        mtu > 0,
    ensures
        ({
            let chunk = if value.skip(offset).len() > mtu {
                value.skip(offset).take(mtu)
            } else {
                value.skip(offset)
            };
            value.take(offset) + chunk == value.take(offset + chunk.len())
        }),
{
    let rest = value.skip(offset);
    let chunk = if rest.len() > mtu {
        rest.take(mtu)
    } else {
        rest
    };
    assert(value.take(offset) + chunk =~= value.take(offset + chunk.len()));
}

/// A mouse report whose buttons are unchanged.
pub open spec fn motion_only(frame: HidFrame, buttons: u8) -> bool {
    frame matches HidFrame::Mouse(b) && b@[1] == buttons
}

/// A mouse report that only moves the pointer (buttons unchanged since the
/// last one sent) may be dropped under back-pressure: the next one carries
/// the newer position anyway. Anything else is state the host must see.
pub fn is_motion_only(frame: &HidFrame, last_mouse_buttons: u8) -> (r: bool)
    ensures
        r == motion_only(*frame, last_mouse_buttons),
{
    match frame {
        HidFrame::Mouse(b) => b[1] == last_mouse_buttons,
        HidFrame::Keyboard(_) => false,
        HidFrame::Consumer(_) => false,
    }
}

// ---------------------------------------------------------------------------
// The advertisement
// ---------------------------------------------------------------------------

/// What an LE advertisement says. Services by their 16-bit UUIDs.
#[derive(Debug, Clone, PartialEq, Eq)]
pub struct Advertisement {
    pub service_uuids: Vec<u16>,
    pub appearance: Option<u16>,
    pub local_name: Option<String>,
    pub discoverable: Option<bool>,
}

/// The LE advertisement: connectable HID peripheral, discoverable only while a
/// pairing window is open. Bonded hosts reconnect to a non-discoverable
/// advertisement on their own; strangers can't see it.
pub fn advertisement(alias: &str, discoverable: bool) -> (r: Advertisement)
    ensures
        r.service_uuids@ == seq![SVC_HID],
        r.appearance == Some(APPEARANCE_HID_KEYBOARD),
        r.local_name matches Some(name) && name@ == alias@,
        r.discoverable == Some(discoverable),
{
    let mut service_uuids: Vec<u16> = Vec::new();
    service_uuids.push(SVC_HID);
    assert(service_uuids@ =~= seq![SVC_HID]);
    Advertisement {
        service_uuids,
        appearance: Some(APPEARANCE_HID_KEYBOARD),
        local_name: Some(alias.to_owned()),
        discoverable: Some(discoverable),
    }
}

// ---------------------------------------------------------------------------
// The GATT database
// ---------------------------------------------------------------------------

/// How a characteristic takes writes.
#[derive(Debug, Clone, Copy, PartialEq, Eq, Structural)]
pub enum WriteKind {
    /// Not at all.
    Refused,
    /// Without a response, over an encrypted link.
    Command,
    /// With a response, over an encrypted link.
    Request,
}

/// Which report a Report characteristic carries.
#[derive(Debug, Clone, Copy, PartialEq, Eq, Structural)]
pub struct ReportRef {
    pub id: u8,
    pub report_type: u8,
}

/// One characteristic of the database.
#[derive(Debug, Clone, PartialEq, Eq)]
pub struct Characteristic {
    pub uuid: u16,
    /// What a read returns; `None` where reads are not taken.
    pub value: Option<Vec<u8>>,
    /// Reads need an encrypted link.
    pub encrypt_read: bool,
    pub write: WriteKind,
    /// Notifications, one writer per subscribing host.
    pub notify: bool,
    /// The Report Reference descriptor, where there is one.
    pub report: Option<ReportRef>,
}

/// The content of a [`Characteristic`].
pub struct CharView {
    pub uuid: u16,
    pub value: Option<Seq<u8>>,
    pub encrypt_read: bool,
    pub write: WriteKind,
    pub notify: bool,
    pub report: Option<ReportRef>,
}

impl View for Characteristic {
    type V = CharView;

    open spec fn view(&self) -> CharView {
        CharView {
            uuid: self.uuid,
            value: match self.value {
                Some(v) => Some(v@),
                None => None,
            },
            encrypt_read: self.encrypt_read,
            write: self.write,
            notify: self.notify,
            report: self.report,
        }
    }
}

/// The contents of a list of characteristics.
pub open spec fn char_views(list: Seq<Characteristic>) -> Seq<CharView> {
    Seq::new(list.len(), |i: int| list[i]@)
}

/// One primary service of the database.
#[derive(Debug, Clone, PartialEq, Eq)]
pub struct Service {
    pub uuid: u16,
    pub characteristics: Vec<Characteristic>,
}

/// The whole database.
#[derive(Debug, Clone, PartialEq, Eq)]
pub struct Application {
    pub services: Vec<Service>,
}

/// A characteristic that can only be read.
pub open spec fn readable(uuid: u16, encrypt: bool, value: Seq<u8>) -> CharView {
    CharView {
        uuid,
        value: Some(value),
        encrypt_read: encrypt,
        write: WriteKind::Refused,
        notify: false,
        report: None,
    }
}

/// An input report: its zero state can be read, changes are notified.
pub open spec fn input_report_of(id: u8, len: nat) -> CharView {
    CharView {
        notify: true,
        report: Some(ReportRef { id, report_type: REPORT_TYPE_INPUT }),
        ..readable(CHR_REPORT, true, Seq::new(len, |i: int| 0u8))
    }
}

/// The characteristics of the HID service.
pub open spec fn hid_characteristics() -> Seq<CharView> {
    seq![
        readable(CHR_HID_INFORMATION, true, hid_information()),
        readable(CHR_REPORT_MAP, true, REPORT_DESCRIPTOR@),
        CharView {
            uuid: CHR_HID_CONTROL_POINT,
            value: None,
            encrypt_read: false,
            write: WriteKind::Command,
            notify: false,
            report: None,
        },
        // 1 = report protocol. Boot protocol is acknowledged but not honored.
        CharView { write: WriteKind::Command, ..readable(CHR_PROTOCOL_MODE, true, seq![1u8]) },
        input_report_of(REPORT_ID_KEYBOARD, 8),
        input_report_of(REPORT_ID_MOUSE, 4),
        input_report_of(REPORT_ID_CONSUMER, 2),
        // The battery feature report the map declares.
        CharView {
            write: WriteKind::Request,
            report: Some(ReportRef { id: BATTERY_REPORT_ID, report_type: REPORT_TYPE_FEATURE }),
            ..readable(CHR_REPORT, true, seq![BATTERY_LEVEL])
        },
    ]
}

/// The characteristics of the battery service.
pub open spec fn battery_characteristics() -> Seq<CharView> {
    seq![readable(CHR_BATTERY_LEVEL, false, seq![BATTERY_LEVEL])]
}

/// `km-hub`, in ASCII.
pub open spec fn manufacturer() -> Seq<u8> {
    seq![0x6bu8, 0x6d, 0x2d, 0x68, 0x75, 0x62]
}

/// The characteristics of the device information service.
pub open spec fn device_information_characteristics() -> Seq<CharView> {
    seq![
        readable(CHR_MANUFACTURER_NAME, false, manufacturer()),
        readable(CHR_PNP_ID, false, pnp_id()),
    ]
}

fn read_only(uuid: u16, encrypt: bool, value: Vec<u8>) -> (r: Characteristic)
    ensures
        r@ == readable(uuid, encrypt, value@),
{
    Characteristic {
        uuid,
        value: Some(value),
        encrypt_read: encrypt,
        write: WriteKind::Refused,
        notify: false,
        report: None,
    }
}

fn one_byte(b: u8) -> (r: Vec<u8>)
    ensures
        r@ == seq![b],
{
    let mut v: Vec<u8> = Vec::new();
    v.push(b);
    assert(v@ =~= seq![b]);
    v
}

fn zeros(len: usize) -> (r: Vec<u8>)
    ensures
        r@ == Seq::new(len as nat, |i: int| 0u8),
{
    let mut v: Vec<u8> = Vec::new();
    let mut i: usize = 0;
    while i < len
        invariant
            i <= len,
            v@ == Seq::new(i as nat, |i: int| 0u8),
        decreases len - i,
    {
        v.push(0);
        assert(v@ =~= Seq::new((i + 1) as nat, |i: int| 0u8));
        i = i + 1;
    }
    v
}

/// One input report characteristic: readable zero state, notifications with a
/// writer of its own for every subscribing host.
fn input_report(id: u8, len: usize) -> (r: Characteristic)
    ensures
        r@ == input_report_of(id, len as nat),
{
    let mut c = read_only(CHR_REPORT, true, zeros(len));
    c.notify = true;
    c.report = Some(ReportRef { id, report_type: REPORT_TYPE_INPUT });
    c
}

/// The HID service and the input reports whose subscriptions are watched.
pub fn hid_service() -> (r: (Service, Vec<u8>))
    ensures
        r.0.uuid == SVC_HID,
        char_views(r.0.characteristics@) == hid_characteristics(),
        r.1@ == INPUT_REPORT_IDS@,
{
    let mut list: Vec<Characteristic> = Vec::new();
    list.push(read_only(CHR_HID_INFORMATION, true, hid_information_value()));
    let mut map: Vec<u8> = Vec::new();
    wire::put_bytes(&mut map, REPORT_DESCRIPTOR.as_slice());
    assert(map@ =~= REPORT_DESCRIPTOR@);
    list.push(read_only(CHR_REPORT_MAP, true, map));
    list.push(
        Characteristic {
            uuid: CHR_HID_CONTROL_POINT,
            value: None,
            encrypt_read: false,
            write: WriteKind::Command,
            notify: false,
            report: None,
        },
    );
    let mut mode = read_only(CHR_PROTOCOL_MODE, true, one_byte(1));
    mode.write = WriteKind::Command;
    list.push(mode);
    list.push(input_report(REPORT_ID_KEYBOARD, 8));
    list.push(input_report(REPORT_ID_MOUSE, 4));
    list.push(input_report(REPORT_ID_CONSUMER, 2));
    // The battery feature report the map declares. Hosts enumerate Report
    // characteristics against the map; keep the two consistent.
    let mut battery = read_only(CHR_REPORT, true, one_byte(BATTERY_LEVEL));
    battery.write = WriteKind::Request;
    battery.report = Some(ReportRef { id: BATTERY_REPORT_ID, report_type: REPORT_TYPE_FEATURE });
    list.push(battery);
    assert(char_views(list@) =~= hid_characteristics());
    let mut controls: Vec<u8> = Vec::new();
    controls.push(REPORT_ID_KEYBOARD);
    controls.push(REPORT_ID_MOUSE);
    controls.push(REPORT_ID_CONSUMER);
    assert(controls@ =~= INPUT_REPORT_IDS@);
    (Service { uuid: SVC_HID, characteristics: list }, controls)
}

pub fn battery_service() -> (r: Service)
    ensures
        r.uuid == SVC_BATTERY,
        char_views(r.characteristics@) == battery_characteristics(),
{
    let mut list: Vec<Characteristic> = Vec::new();
    list.push(read_only(CHR_BATTERY_LEVEL, false, one_byte(BATTERY_LEVEL)));
    assert(char_views(list@) =~= battery_characteristics());
    Service { uuid: SVC_BATTERY, characteristics: list }
}

pub fn device_information_service() -> (r: Service)
    ensures
        r.uuid == SVC_DEVICE_INFO,
        char_views(r.characteristics@) == device_information_characteristics(),
{
    let mut name: Vec<u8> = Vec::new();
    name.push(0x6b);
    name.push(0x6d);
    name.push(0x2d);
    name.push(0x68);
    name.push(0x75);
    name.push(0x62);
    assert(name@ =~= manufacturer());
    let mut list: Vec<Characteristic> = Vec::new();
    list.push(read_only(CHR_MANUFACTURER_NAME, false, name));
    list.push(read_only(CHR_PNP_ID, false, pnp_id_value()));
    assert(char_views(list@) =~= device_information_characteristics());
    Service { uuid: SVC_DEVICE_INFO, characteristics: list }
}

/// The complete GATT application plus the report IDs whose subscriptions are
/// watched, in the order of their characteristics.
pub fn build_hid_application() -> (r: (Application, Vec<u8>))
    ensures
        r.0.services@.len() == 3,
        r.0.services@[0].uuid == SVC_HID,
        char_views(r.0.services@[0].characteristics@) == hid_characteristics(),
        r.0.services@[1].uuid == SVC_BATTERY,
        char_views(r.0.services@[1].characteristics@) == battery_characteristics(),
        r.0.services@[2].uuid == SVC_DEVICE_INFO,
        char_views(r.0.services@[2].characteristics@) == device_information_characteristics(),
        r.1@ == INPUT_REPORT_IDS@,
{
    let (hid, controls) = hid_service();
    let mut services: Vec<Service> = Vec::new();
    services.push(hid);
    services.push(battery_service());
    services.push(device_information_service());
    (Application { services }, controls)
}

/// Everything a host reads of the HID service needs an encrypted link, and
/// every Report characteristic says which report it is.
pub proof fn law_hid_service_is_encrypted(i: int)
    requires
        0 <= i < hid_characteristics().len(),
    ensures
        ({
            let c = hid_characteristics()[i];
            &&& c.value is Some ==> c.encrypt_read
            &&& c.uuid == CHR_REPORT <==> c.report is Some
            &&& c.notify <==> (c.report matches Some(r) && r.report_type == REPORT_TYPE_INPUT)
        }),
{
}

// ---------------------------------------------------------------------------
// Subscriptions
// ---------------------------------------------------------------------------

/// What is known of one subscribed host.
#[derive(Debug)]
struct Peer {
    /// report id -> generation of the subscription; a host that has not
    /// enabled a report's notifications has no entry for it.
    subs: HashMap<u8, u64>,
    /// Buttons byte of the last mouse report sent, for `is_motion_only`.
    last_mouse_buttons: u8,
}

/// The content of what is known of one host.
#[verifier::ext_equal]
pub struct PeerView {
    pub subs: Map<u8, u64>,
    pub buttons: u8,
}

impl View for Peer {
    type V = PeerView;

    closed spec fn view(&self) -> PeerView {
        PeerView { subs: self.subs@, buttons: self.last_mouse_buttons }
    }
}

/// Who has subscribed to which input report, so frames are routed by peer
/// address like the classic transport.
#[derive(Debug)]
pub struct LeTransport {
    /// False once the application is unregistered.
    listening: bool,
    next_generation: u64,
    /// By address.
    peers: HashMap<u64, Peer>,
}

/// The state of a [`LeTransport`].
#[verifier::ext_equal]
pub struct LeView {
    pub listening: bool,
    pub next_generation: u64,
    pub peers: Map<u64, PeerView>,
}

impl View for LeTransport {
    type V = LeView;

    closed spec fn view(&self) -> LeView {
        LeView {
            listening: self.listening,
            next_generation: self.next_generation,
            peers: self.peers@.map_values(|p: Peer| p@),
        }
    }
}

impl LeView {
    /// Only subscribed hosts are known, under generations already given out.
    pub open spec fn wf(self) -> bool {
        forall|peer: u64| #[trigger]
            self.peers.contains_key(peer) ==> {
                &&& !self.peers[peer].subs.is_empty()
                &&& forall|id: u8| #[trigger]
                    self.peers[peer].subs.contains_key(id) ==> self.peers[peer].subs[id]
                        < self.next_generation
            }
    }

    /// Whether a host has any input report enabled.
    pub open spec fn connected(self, peer: u64) -> bool {
        self.peers.contains_key(peer)
    }

    /// Whether a host has this input report enabled.
    pub open spec fn subscribed(self, peer: u64, id: u8) -> bool {
        self.peers.contains_key(peer) && self.peers[peer].subs.contains_key(id)
    }

    /// After a host enabled a report.
    pub open spec fn after_subscribe(self, peer: u64, id: u8) -> LeView {
        let known = if self.peers.contains_key(peer) {
            self.peers[peer]
        } else {
            PeerView { subs: Map::empty(), buttons: 0 }
        };
        LeView {
            next_generation: (self.next_generation + 1) as u64,
            peers: self.peers.insert(
                peer,
                PeerView { subs: known.subs.insert(id, self.next_generation), ..known },
            ),
            ..self
        }
    }

    /// Whether a close notice is about the subscription that stands now.
    pub open spec fn concerns(self, peer: u64, id: u8, generation: Option<u64>) -> bool {
        self.subscribed(peer, id) && (generation matches Some(g) ==> self.peers[peer].subs[id] == g)
    }

    /// After a subscription ended.
    pub open spec fn after_forget(self, peer: u64, id: u8, generation: Option<u64>) -> LeView {
        if !self.concerns(peer, id, generation) {
            self
        } else {
            let subs = self.peers[peer].subs.remove(id);
            LeView {
                peers: if subs.is_empty() {
                    self.peers.remove(peer)
                } else {
                    self.peers.insert(peer, PeerView { subs, ..self.peers[peer] })
                },
                ..self
            }
        }
    }

    /// After a frame went out.
    pub open spec fn after_sent(self, peer: u64, frame: HidFrame) -> LeView {
        match frame {
            HidFrame::Mouse(b) => if self.peers.contains_key(peer) {
                LeView {
                    peers: self.peers.insert(
                        peer,
                        PeerView { buttons: b@[1], ..self.peers[peer] },
                    ),
                    ..self
                }
            } else {
                self
            },
            _ => self,
        }
    }
}

/// What a new subscription gave.
#[derive(Debug, Clone, Copy, PartialEq, Eq, Structural)]
pub struct Subscribed {
    /// Marks this subscription apart from earlier ones of the same report.
    pub generation: u64,
    /// The host had no report enabled before.
    pub first: bool,
}

/// Whether a frame can be tried.
#[derive(Debug, Clone, Copy, PartialEq, Eq, Structural)]
pub enum Delivery {
    /// The host has no report enabled: the frame is dropped.
    NotSubscribed,
    /// The host has not enabled this report: the frame is dropped.
    ReportOff,
    /// Try to send it.
    Attempt,
}

/// What to do with a frame the link has no room for.
#[derive(Debug, Clone, Copy, PartialEq, Eq, Structural)]
pub enum Busy {
    /// Pointer motion: dropped, which counts as sent.
    Drop,
    /// Wait for room, `KEY_SEND_TIMEOUT_MS` at most.
    Wait,
}

impl LeTransport {
    /// A registered application that no host has subscribed to yet.
    pub fn serve() -> (r: Self)
        ensures
            r@ == (LeView { listening: true, next_generation: 0, peers: Map::empty() }),
            r@.wf(),
    {
        let r = LeTransport { listening: true, next_generation: 0, peers: HashMap::new() };
        assert(r@.peers =~= Map::empty());
        r
    }

    pub fn has_listeners(&self) -> (r: bool)
        ensures
            r == self@.listening,
    {
        self.listening
    }

    /// The application was unregistered (`false`) or is registered again.
    pub fn set_listening(&mut self, on: bool)
        ensures
            final(self)@ == (LeView { listening: on, ..old(self)@ }),
            old(self)@.wf() ==> final(self)@.wf(),
    {
        self.listening = on;
    }

    pub fn is_peer_connected(&self, peer: Address) -> (r: bool)
        requires
            self@.wf(),
        ensures
            r == self@.connected(peer.raw),
    {
        match self.peers.get(&peer.raw) {
            Some(p) => {
                assert(self@.peers.contains_key(peer.raw));
                assert(self@.peers[peer.raw] == p@);
                !p.subs.is_empty()
            },
            None => false,
        }
    }

    pub fn is_subscribed(&self, peer: Address, id: u8) -> (r: bool)
        ensures
            r == self@.subscribed(peer.raw, id),
    {
        match self.peers.get(&peer.raw) {
            Some(p) => p.subs.contains_key(&id),
            None => false,
        }
    }

    /// Whether one more subscription can be numbered.
    pub fn can_subscribe(&self) -> (r: bool)
        ensures
            r == (self@.next_generation < u64::MAX),
    {
        self.next_generation < u64::MAX
    }

    /// Store a new subscription.
    pub fn subscribe(&mut self, peer: Address, id: u8) -> (r: Subscribed)
        requires
            old(self)@.wf(),
            old(self)@.next_generation < u64::MAX,
        ensures
            final(self)@ == old(self)@.after_subscribe(peer.raw, id),
            final(self)@.wf(),
            r == (Subscribed {
                generation: old(self)@.next_generation,
                first: !old(self)@.connected(peer.raw),
            }),
    {
        let ghost before = self@;
        let generation: u64 = self.next_generation;
        self.next_generation = generation + 1;
        let known = self.peers.remove(&peer.raw);
        let first = known.is_none();
        let mut entry = match known {
            Some(p) => p,
            None => Peer { subs: HashMap::new(), last_mouse_buttons: 0 },
        };
        entry.subs.insert(id, generation);
        let ghost stored = entry@;
        self.peers.insert(peer.raw, entry);
        proof {
            let after = before.after_subscribe(peer.raw, id);
            assert(stored =~= after.peers[peer.raw]);
            assert(self@.peers =~= after.peers);
            assert(stored.subs.contains_key(id));
            assert(!stored.subs.is_empty()) by {
                assert(stored.subs.dom().contains(id));
            }
        }
        Subscribed { generation, first }
    }

    /// Drop one subscription — whatever its generation when that is `None` —
    /// and the peer once its last one is gone. Returns whether it was dropped.
    pub fn forget_sub(&mut self, peer: Address, id: u8, generation: Option<u64>) -> (r: bool)
        requires
            old(self)@.wf(),
        ensures
            final(self)@ == old(self)@.after_forget(peer.raw, id, generation),
            final(self)@.wf(),
            r == old(self)@.concerns(peer.raw, id, generation),
    {
        let ghost before = self@;
        let current: Option<u64> = match self.peers.get(&peer.raw) {
            Some(p) => match p.subs.get(&id) {
                Some(g) => Some(*g),
                None => None,
            },
            None => None,
        };
        let stale = match (current, generation) {
            (None, _) => false,
            (Some(_), None) => true,
            (Some(have), Some(g)) => have == g,
        };
        assert(stale == before.concerns(peer.raw, id, generation));
        if !stale {
            return false;
        }
        if let Some(p) = self.peers.remove(&peer.raw) {
            let mut entry = p;
            assert(entry@ == before.peers[peer.raw]);
            entry.subs.remove(&id);
            assert(entry.subs@ =~= before.peers[peer.raw].subs.remove(id));
            if !entry.subs.is_empty() {
                let ghost stored = entry@;
                self.peers.insert(peer.raw, entry);
                assert(stored =~= PeerView {
                    subs: before.peers[peer.raw].subs.remove(id),
                    ..before.peers[peer.raw]
                });
            }
        }
        assert(self@.peers =~= before.after_forget(peer.raw, id, generation).peers);
        true
    }

    /// Whether a frame for `peer` can be tried.
    pub fn send_to(&self, peer: Address, frame: &HidFrame) -> (r: Delivery)
        ensures
            r == (if !self@.connected(peer.raw) {
                Delivery::NotSubscribed
            } else if !self@.subscribed(peer.raw, frame@[0]) {
                Delivery::ReportOff
            } else {
                Delivery::Attempt
            }),
    {
        match self.peers.get(&peer.raw) {
            Some(p) => if p.subs.contains_key(&frame.report_id()) {
                Delivery::Attempt
            } else {
                Delivery::ReportOff
            },
            None => Delivery::NotSubscribed,
        }
    }

    /// The link to `peer` has no room for the frame right now.
    pub fn on_busy(&self, peer: Address, frame: &HidFrame) -> (r: Busy)
        ensures
            r == (if self@.connected(peer.raw) && motion_only(
                *frame,
                self@.peers[peer.raw].buttons,
            ) {
                Busy::Drop
            } else {
                Busy::Wait
            }),
    {
        match self.peers.get(&peer.raw) {
            Some(p) => if is_motion_only(frame, p.last_mouse_buttons) {
                Busy::Drop
            } else {
                Busy::Wait
            },
            None => Busy::Wait,
        }
    }

    /// The frame went out, or was dropped as motion.
    pub fn on_sent(&mut self, peer: Address, frame: &HidFrame)
        requires
            old(self)@.wf(),
        ensures
            final(self)@ == old(self)@.after_sent(peer.raw, *frame),
            final(self)@.wf(),
    {
        let ghost before = self@;
        if let HidFrame::Mouse(b) = frame {
            if let Some(p) = self.peers.remove(&peer.raw) {
                let mut entry = p;
                entry.last_mouse_buttons = b[1];
                self.peers.insert(peer.raw, entry);
            }
        }
        assert(self@.peers =~= before.after_sent(peer.raw, *frame).peers);
    }

    /// The frame could not be sent: its subscription is dead.
    pub fn on_send_failed(&mut self, peer: Address, frame: &HidFrame)
        requires
            old(self)@.wf(),
        ensures
            final(self)@ == old(self)@.after_forget(peer.raw, frame@[0], None),
            final(self)@.wf(),
    {
        self.forget_sub(peer, frame.report_id(), None);
    }

    /// Forget every subscription of `peer`. Returns whether it had any.
    pub fn drop_peer(&mut self, peer: Address) -> (r: bool)
        requires
            old(self)@.wf(),
        ensures
            final(self)@ == (LeView { peers: old(self)@.peers.remove(peer.raw), ..old(self)@ }),
            final(self)@.wf(),
            r == old(self)@.connected(peer.raw),
    {
        let ghost before = self@;
        let r = self.peers.remove(&peer.raw).is_some();
        assert(self@.peers =~= before.peers.remove(peer.raw));
        r
    }
}

/// A close notice of an earlier subscription never ends the one that replaced
/// it.
pub proof fn law_stale_close_is_ignored(t: LeView, peer: u64, id: u8, earlier: u64)
    requires
        t.wf(),
        earlier < t.next_generation < u64::MAX,
    ensures
        t.after_subscribe(peer, id).after_forget(peer, id, Some(earlier)) == t.after_subscribe(
            peer,
            id,
        ),
        t.after_subscribe(peer, id).subscribed(peer, id),
{
}

/// Ending the subscription that was just made leaves the host without it, and
/// every other subscription as it was.
pub proof fn law_close_ends_its_subscription(
    t: LeView,
    peer: u64,
    id: u8,
    other_peer: u64,
    other_id: u8,
)
    requires
        t.wf(),
        t.next_generation < u64::MAX,
        (other_peer, other_id) != (peer, id),
    ensures
        ({
            let end = t.after_subscribe(peer, id).after_forget(
                peer,
                id,
                Some(t.next_generation),
            );
            &&& !end.subscribed(peer, id)
            &&& end.subscribed(other_peer, other_id) == t.subscribed(other_peer, other_id)
        }),
{
    let end = t.after_subscribe(peer, id).after_forget(peer, id, Some(t.next_generation));
    if t.subscribed(other_peer, other_id) && other_peer == peer {
        let left = t.after_subscribe(peer, id).peers[peer].subs.remove(id);
        assert(left.dom().contains(other_id));
        assert(!left.is_empty());
    }
    if end.subscribed(other_peer, other_id) && other_peer == peer {
        assert(t.subscribed(other_peer, other_id));
    }
}

/// A host without any subscription left is not connected.
pub proof fn law_connected_means_subscribed(t: LeView, peer: u64)
    requires
        t.wf(),
    ensures
        t.connected(peer) <==> exists|id: u8| t.subscribed(peer, id),
{
    if t.connected(peer) {
        let subs = t.peers[peer].subs;
        assert(!subs.dom().is_empty());
        let id = subs.dom().choose();
        assert(subs.dom().contains(id)) by {
            if forall|i: u8| !subs.dom().contains(i) {
                assert(subs.dom() =~= Set::empty());
            }
        }
        assert(t.subscribed(peer, id));
    }
}

/// The HID service, characteristic by characteristic: information, map,
/// control point, protocol mode, the three input reports at zero, and the
/// battery's level as a feature report.
#[verifier::rlimit(30)]
pub proof fn law_hid_service_contents()
    ensures
        ({
            let c = hid_characteristics();
            &&& c.len() == 8
            &&& c[0].uuid == 0x2A4A && c[0].value == Some(seq![0x11u8, 0x01, 0x00, 0x03])
            &&& c[1].uuid == 0x2A4B && c[1].value == Some(REPORT_DESCRIPTOR@)
            &&& c[2].uuid == 0x2A4C && c[2].value is None && c[2].write == WriteKind::Command
            &&& c[3].uuid == 0x2A4E && c[3].value == Some(seq![1u8]) && c[3].write
                == WriteKind::Command
            &&& c[4].uuid == 0x2A4D && c[4].report == Some(ReportRef { id: 1, report_type: 1 })
                && c[4].value is Some && (c[4].value->0).len() == 8
            &&& c[5].uuid == 0x2A4D && c[5].report == Some(ReportRef { id: 2, report_type: 1 })
                && c[5].value is Some && (c[5].value->0).len() == 4
            &&& c[6].uuid == 0x2A4D && c[6].report == Some(ReportRef { id: 4, report_type: 1 })
                && c[6].value is Some && (c[6].value->0).len() == 2
            &&& c[7].uuid == 0x2A4D && c[7].report == Some(ReportRef { id: 3, report_type: 3 })
                && c[7].value == Some(seq![100u8]) && c[7].write == WriteKind::Request
            &&& c[0].write == WriteKind::Refused && c[1].write == WriteKind::Refused && c[4].write
                == WriteKind::Refused && c[5].write == WriteKind::Refused && c[6].write
                == WriteKind::Refused
            &&& c[4].notify && c[5].notify && c[6].notify && !c[0].notify && !c[1].notify
                && !c[2].notify && !c[3].notify && !c[7].notify
            &&& forall|i: int| 0 <= i < 8 ==> (#[trigger] (c[4].value->0)[i]) == 0
            &&& forall|i: int| 0 <= i < 4 ==> (#[trigger] (c[5].value->0)[i]) == 0
            &&& forall|i: int| 0 <= i < 2 ==> (#[trigger] (c[6].value->0)[i]) == 0
        }),
        INPUT_REPORT_IDS@ == seq![1u8, 2, 4],
{
    assert(INPUT_REPORT_IDS@ =~= seq![1u8, 2, 4]);
}

/// The battery and device information services: the level, the maker's name
/// and the plug-and-play identity, readable by anyone.
pub proof fn law_other_service_contents()
    ensures
        ({
            let b = battery_characteristics();
            let d = device_information_characteristics();
            &&& b.len() == 1 && b[0].uuid == 0x2A19 && b[0].value == Some(seq![100u8])
                && !b[0].encrypt_read
            &&& d.len() == 2 && d[0].uuid == 0x2A29 && d[1].uuid == 0x2A50
            &&& d[0].value == Some(seq![107u8, 109, 45, 104, 117, 98])
            &&& d[1].value == Some(seq![2u8, 0x6B, 0x1D, 1, 0, 0, 1])
            &&& !d[0].encrypt_read && !d[1].encrypt_read
        }),
        SVC_HID == 0x1812,
        SVC_BATTERY == 0x180F,
        SVC_DEVICE_INFO == 0x180A,
        APPEARANCE_HID_KEYBOARD == 0x03C1,
        DSC_REPORT_REFERENCE == 0x2908,
        KEY_SEND_TIMEOUT_MS == 250,
{
    assert(pnp_id() =~= seq![2u8, 0x6B, 0x1D, 1, 0, 0, 1]);
}

/// A report that only moves the pointer is a mouse report with the buttons as
/// they were.
pub proof fn law_motion_is_a_mouse_report(frame: HidFrame, buttons: u8)
    ensures
        motion_only(frame, buttons) <==> frame is Mouse && frame@[1] == buttons,
{
}

/// A subscription is for one host and one report: it turns that on and touches
/// no other; every one gets a number of its own, and a host is first heard of
/// with no button down.
pub proof fn law_subscribing(t: LeView, peer: u64, id: u8, other: u64, other_id: u8)
    requires
        t.next_generation < u64::MAX,
    ensures
        ({
            let after = t.after_subscribe(peer, id);
            &&& after.subscribed(peer, id) && after.connected(peer)
            &&& after.peers[peer].subs[id] == t.next_generation
            &&& after.next_generation == t.next_generation + 1
            &&& after.listening == t.listening
            &&& (other, other_id) != (peer, id) ==> after.subscribed(other, other_id)
                == t.subscribed(other, other_id)
            &&& other != peer ==> after.connected(other) == t.connected(other)
            &&& other != peer && t.connected(other) ==> after.peers[other] == t.peers[other]
            &&& !t.connected(peer) ==> after.peers[peer].buttons == 0
            &&& t.connected(peer) ==> after.peers[peer].buttons == t.peers[peer].buttons
        }),
{
}

/// Ending a subscription ends it if it is the one that stands, and only it; the
/// host is gone with its last.
pub proof fn law_forgetting(
    t: LeView,
    peer: u64,
    id: u8,
    generation: Option<u64>,
    other: u64,
    other_id: u8,
)
    requires
        t.wf(),
    ensures
        ({
            let after = t.after_forget(peer, id, generation);
            let stands = t.subscribed(peer, id) && (generation is None || t.peers[peer].subs[id]
                == generation->0);
            &&& t.concerns(peer, id, generation) <==> stands
            &&& !stands ==> after == t
            &&& stands ==> !after.subscribed(peer, id)
            &&& (other, other_id) != (peer, id) ==> after.subscribed(other, other_id)
                == t.subscribed(other, other_id)
            &&& other != peer ==> after.connected(other) == t.connected(other)
            &&& stands && t.subscribed(peer, other_id) && other_id != id ==> after.connected(peer)
            &&& after.next_generation == t.next_generation
            &&& after.listening == t.listening
        }),
{
    let subs = t.peers[peer].subs.remove(id);
    if t.subscribed(peer, other_id) && other_id != id {
        assert(subs.dom().contains(other_id));
        assert(!subs.is_empty());
    }
}

/// What was sent last decides which buttons count as down, for that host
/// alone; keys and media keys leave them as they are.
pub proof fn law_sent_buttons_count(t: LeView, peer: u64, frame: HidFrame, other: u64, id: u8)
    ensures
        frame is Mouse && t.connected(peer) ==> t.after_sent(peer, frame).peers[peer].buttons
            == frame@[1] && t.after_sent(peer, frame).peers[peer].subs == t.peers[peer].subs,
        !(frame is Mouse) ==> t.after_sent(peer, frame) == t,
        other != peer && t.connected(other) ==> t.after_sent(peer, frame).peers[other]
            == t.peers[other],
        t.after_sent(peer, frame).subscribed(other, id) == t.subscribed(other, id),
{
}

} // verus!
