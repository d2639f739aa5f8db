//! HID transport over Bluetooth L2CAP, plus a logging stub used by default
//! until the real link is proven.
//!
//! The control channel answers HIDP requests (SET_PROTOCOL, GET_REPORT, ...)
//! for the lifetime of one connection — hosts like macOS reset the link within
//! seconds if these go unanswered.

use std::collections::HashSet;
use vstd::prelude::*;

use crate::bt::addr::Address;
use crate::bt::gatt::{LeTransport, LeView};
use crate::hid::{
    HidFrame, BATTERY_LEVEL, BATTERY_REPORT_ID, CONSUMER_REPORT_ID, HIDP_DATA_INPUT,
    KEYBOARD_REPORT_ID, MOUSE_REPORT_ID,
};
use crate::wire;

verus! {

broadcast use {
    vstd::seq::group_seq_axioms,
    vstd::array::group_array_axioms,
    vstd::slice::group_slice_axioms,
    vstd::std_specs::hash::group_hash_axioms,
};

pub const PSM_HID_CONTROL: u16 = 0x0011;

pub const PSM_HID_INTERRUPT: u16 = 0x0013;

/// A stalled link must fail fast instead of blocking the report stream.
pub const WRITE_TIMEOUT_SECS: u64 = 2;

// ---------------------------------------------------------------------------
// The control channel
// ---------------------------------------------------------------------------

// HIDP message types (header high nibble).
pub const HIDP_HANDSHAKE: u8 = 0x0;

pub const HIDP_HID_CONTROL: u8 = 0x1;

pub const HIDP_GET_REPORT: u8 = 0x4;

pub const HIDP_SET_REPORT: u8 = 0x5;

pub const HIDP_GET_PROTOCOL: u8 = 0x6;

pub const HIDP_SET_PROTOCOL: u8 = 0x7;

pub const HIDP_DATA: u8 = 0xA;

pub const HANDSHAKE_SUCCESS: u8 = 0x00;

pub const HANDSHAKE_ERR_UNSUPPORTED: u8 = 0x03;

pub const HID_CONTROL_VIRTUAL_CABLE_UNPLUG: u8 = 0x05;

pub const REPORT_TYPE_INPUT: u8 = 1;

pub const REPORT_TYPE_FEATURE: u8 = 3;

/// Header of a control-channel answer that carries no report type.
pub const HIDP_DATA_OTHER: u8 = 0xA0;

/// Header of a feature report.
pub const HIDP_DATA_FEATURE: u8 = 0xA3;

/// The longest request read at once.
pub const CONTROL_BUFFER: usize = 128;

/// What the control channel does about a request.
#[derive(Debug, Clone, PartialEq, Eq)]
pub enum Answer {
    /// Write these bytes.
    Reply(Vec<u8>),
    /// No response required.
    Nothing,
    /// The channel is over.
    Close,
}

/// The content of an [`Answer`].
pub enum AnswerView {
    Reply(Seq<u8>),
    Nothing,
    Close,
}

impl View for Answer {
    type V = AnswerView;

    open spec fn view(&self) -> AnswerView {
        match self {
            Answer::Reply(bytes) => AnswerView::Reply(bytes@),
            Answer::Nothing => AnswerView::Nothing,
            Answer::Close => AnswerView::Close,
        }
    }
}

/// The zero state of an input report, ID first: the keyboard's where no other
/// report is named.
pub open spec fn zero_report(id: Option<u8>) -> Seq<u8> {
    if id == Some(MOUSE_REPORT_ID) {
        seq![MOUSE_REPORT_ID, 0, 0, 0, 0]
    } else if id == Some(CONSUMER_REPORT_ID) {
        seq![CONSUMER_REPORT_ID, 0, 0]
    } else {
        seq![KEYBOARD_REPORT_ID, 0, 0, 0, 0, 0, 0, 0, 0]
    }
}

/// What is answered to GET_REPORT. The header is followed by the report ID,
/// then (if the SIZE flag is set) a 2-byte buffer size nobody needs.
pub open spec fn report_answer(kind: u8, id: Option<u8>) -> Seq<u8> {
    if kind == REPORT_TYPE_INPUT {
        seq![HIDP_DATA_INPUT] + zero_report(id)
    } else if kind == REPORT_TYPE_FEATURE && (id is None || id == Some(BATTERY_REPORT_ID)) {
        seq![HIDP_DATA_FEATURE, BATTERY_REPORT_ID, BATTERY_LEVEL]
    } else {
        seq![HANDSHAKE_ERR_UNSUPPORTED]
    }
}

/// The answer to a request and the protocol in force after it.
pub open spec fn answered(protocol: u8, request: Seq<u8>) -> (u8, AnswerView) {
    if request.len() == 0 {
        (protocol, AnswerView::Close)
    } else {
        let msg = request[0] / 16;
        let param = request[0] % 16;
        let id = if request.len() > 1 {
            Some(request[1])
        } else {
            None
        };
        if msg == HIDP_GET_REPORT {
            (protocol, AnswerView::Reply(report_answer(param % 4, id)))
        } else if msg == HIDP_SET_REPORT {
            (protocol, AnswerView::Reply(seq![HANDSHAKE_SUCCESS]))
        } else if msg == HIDP_GET_PROTOCOL {
            (protocol, AnswerView::Reply(seq![HIDP_DATA_OTHER, protocol]))
        } else if msg == HIDP_SET_PROTOCOL {
            (param % 2, AnswerView::Reply(seq![HANDSHAKE_SUCCESS]))
        } else if msg == HIDP_HID_CONTROL {
            // SUSPEND / EXIT_SUSPEND / resets: no response required.
            (
                protocol,
                if param == HID_CONTROL_VIRTUAL_CABLE_UNPLUG {
                    AnswerView::Close
                } else {
                    AnswerView::Nothing
                },
            )
        } else if msg == HIDP_DATA || msg == HIDP_HANDSHAKE {
            // Output reports from the host (e.g. keyboard LED state).
            (protocol, AnswerView::Nothing)
        } else {
            (protocol, AnswerView::Reply(seq![HANDSHAKE_ERR_UNSUPPORTED]))
        }
    }
}

fn zero_report_into(out: &mut Vec<u8>, id: Option<u8>)
    ensures
        final(out)@ == old(out)@ + zero_report(id),
{
    let ghost before = out@;
    let (first, rest): (u8, usize) = match id {
        Some(i) => if i == MOUSE_REPORT_ID {
            (MOUSE_REPORT_ID, 4)
        } else if i == CONSUMER_REPORT_ID {
            (CONSUMER_REPORT_ID, 2)
        } else {
            (KEYBOARD_REPORT_ID, 8)
        },
        None => (KEYBOARD_REPORT_ID, 8),
    };
    out.push(first);
    let mut i: usize = 0;
    while i < rest
        invariant
            i <= rest,
            out@ == before.push(first) + Seq::new(i as nat, |j: int| 0u8),
        decreases rest - i,
    {
        out.push(0);
        assert(out@ =~= before.push(first) + Seq::new((i + 1) as nat, |j: int| 0u8));
        i = i + 1;
    }
    assert(out@ =~= before + zero_report(id));
}

/// The control channel of one connection.
#[derive(Debug)]
pub struct ControlChannel {
    /// 0 = boot, 1 = report. Reports always stream in report protocol; boot
    /// mode is acknowledged but not honored.
    protocol: u8,
}

impl View for ControlChannel {
    type V = u8;

    closed spec fn view(&self) -> u8 {
        self.protocol
    }
}

impl ControlChannel {
    pub fn new() -> (r: Self)
        ensures
            r@ == 1,
    {
        ControlChannel { protocol: 1 }
    }

    /// Answer one HIDP request. Hosts (macOS in particular) reset the whole
    /// HID link if these requests go unanswered.
    pub fn answer(&mut self, request: &[u8]) -> (r: Answer)
        ensures
            (final(self)@, r@) == answered(old(self)@, request@),
    {
        let ghost before = self@;
        if request.len() == 0 {
            return Answer::Close;
        }
        let msg: u8 = request[0] / 16;
        let param: u8 = request[0] % 16;
        let mut reply: Vec<u8> = Vec::new();
        if msg == HIDP_GET_REPORT {
            let id: Option<u8> = if request.len() > 1 {
                Some(request[1])
            } else {
                None
            };
            let battery = match id {
                Some(i) => i == BATTERY_REPORT_ID,
                None => true,
            };
            let kind: u8 = param % 4;
            if kind == REPORT_TYPE_INPUT {
                // The zero state of the requested report.
                reply.push(HIDP_DATA_INPUT);
                assert(reply@ =~= seq![HIDP_DATA_INPUT]);
                zero_report_into(&mut reply, id);
            } else if kind == REPORT_TYPE_FEATURE && battery {
                // The battery level macOS polls when its Bluetooth pane is
                // open, also where the host asks without naming an ID.
                reply.push(HIDP_DATA_FEATURE);
                reply.push(BATTERY_REPORT_ID);
                reply.push(BATTERY_LEVEL);
            } else {
                reply.push(HANDSHAKE_ERR_UNSUPPORTED);
            }
            assert(reply@ =~= report_answer(kind, id));
        } else if msg == HIDP_SET_REPORT {
            reply.push(HANDSHAKE_SUCCESS);
            assert(reply@ =~= seq![HANDSHAKE_SUCCESS]);
        } else if msg == HIDP_GET_PROTOCOL {
            reply.push(HIDP_DATA_OTHER);
            reply.push(self.protocol);
            assert(reply@ =~= seq![HIDP_DATA_OTHER, before]);
        } else if msg == HIDP_SET_PROTOCOL {
            self.protocol = param % 2;
            reply.push(HANDSHAKE_SUCCESS);
            assert(reply@ =~= seq![HANDSHAKE_SUCCESS]);
        } else if msg == HIDP_HID_CONTROL {
            if param == HID_CONTROL_VIRTUAL_CABLE_UNPLUG {
                return Answer::Close;
            }
            return Answer::Nothing;
        } else if msg == HIDP_DATA || msg == HIDP_HANDSHAKE {
            return Answer::Nothing;
        } else {
            reply.push(HANDSHAKE_ERR_UNSUPPORTED);
            assert(reply@ =~= seq![HANDSHAKE_ERR_UNSUPPORTED]);
        }
        Answer::Reply(reply)
    }
}

/// A report on the interrupt channel.
pub fn interrupt_frame(frame: &HidFrame) -> (r: Vec<u8>)
    ensures
        r@ == seq![HIDP_DATA_INPUT] + frame@,
{
    let mut buf: Vec<u8> = Vec::new();
    buf.push(HIDP_DATA_INPUT);
    assert(buf@ =~= seq![HIDP_DATA_INPUT]);
    wire::put_bytes(&mut buf, frame.bytes());
    buf
}

// ---------------------------------------------------------------------------
// Connections
// ---------------------------------------------------------------------------

/// Logs every frame instead of sending it — the default transport so the
/// hub always runs end-to-end without a working BT link.
#[derive(Debug, Clone, Copy, PartialEq, Eq, Structural)]
pub struct LogTransport;

/// Control and interrupt channel of one connection came from different hosts.
#[derive(Debug, Clone, Copy, PartialEq, Eq, Structural)]
pub struct Mismatched {
    pub control: Address,
    pub interrupt: Address,
}

/// Holds one connection per host so switching targets is instant and idle
/// hosts stay attached; frames are routed by peer address.
#[derive(Debug)]
pub struct L2capTransport {
    /// Both listeners are bound.
    listening: bool,
    /// Control channel accepted, interrupt channel not yet.
    pending_control: Option<Address>,
    conns: HashSet<u64>,
}

/// The state of a [`L2capTransport`].
#[verifier::ext_equal]
pub struct L2capView {
    pub listening: bool,
    pub pending_control: Option<Address>,
    pub conns: Set<u64>,
}

impl View for L2capTransport {
    type V = L2capView;

    closed spec fn view(&self) -> L2capView {
        L2capView {
            listening: self.listening,
            pending_control: self.pending_control,
            conns: self.conns@,
        }
    }
}

impl L2capTransport {
    /// Both listeners bound, nobody connected.
    pub fn bound() -> (r: Self)
        ensures
            r@ == (L2capView { listening: true, pending_control: None, conns: Set::empty() }),
    {
        L2capTransport { listening: true, pending_control: None, conns: HashSet::new() }
    }

    /// Whether the next channel to accept is a control channel. An accepted
    /// one is parked until its interrupt channel arrives.
    pub fn awaits_control(&self) -> (r: bool)
        ensures
            r == (self@.pending_control is None),
    {
        self.pending_control.is_none()
    }

    /// A control channel was accepted.
    pub fn on_control(&mut self, peer: Address)
        ensures
            final(self)@ == (L2capView { pending_control: Some(peer), ..old(self)@ }),
    {
        self.pending_control = Some(peer);
    }

    /// An interrupt channel was accepted: with the parked control channel it
    /// makes a connection, unless the two came from different hosts, which
    /// drops both. Without a parked control channel nothing changes.
    pub fn on_interrupt(&mut self, peer: Address) -> (r: Option<Result<Address, Mismatched>>)
        ensures
            match old(self)@.pending_control {
                None => r is None && final(self)@ == old(self)@,
                Some(control) => {
                    &&& final(self)@.pending_control is None
                    &&& final(self)@.listening == old(self)@.listening
                    &&& if control == peer {
                        &&& r == Some(Ok::<Address, Mismatched>(peer))
                        &&& final(self)@.conns == old(self)@.conns.insert(peer.raw)
                    } else {
                        &&& r == Some(
                            Err::<Address, Mismatched>(Mismatched { control, interrupt: peer }),
                        )
                        &&& final(self)@.conns == old(self)@.conns
                    }
                },
            },
    {
        match self.pending_control {
            None => None,
            Some(control) => {
                self.pending_control = None;
                if control != peer {
                    return Some(Err(Mismatched { control, interrupt: peer }));
                }
                self.insert(peer);
                Some(Ok(peer))
            },
        }
    }

    /// Register a connection. Returns whether it replaces one from the same
    /// host.
    pub fn insert(&mut self, peer: Address) -> (r: bool)
        ensures
            final(self)@ == (L2capView { conns: old(self)@.conns.insert(peer.raw), ..old(self)@ }),
            r == old(self)@.conns.contains(peer.raw),
    {
        let ghost before = self@;
        let known = self.conns.contains(&peer.raw);
        self.conns.insert(peer.raw);
        assert(self@.conns =~= before.conns.insert(peer.raw));
        known
    }

    pub fn is_connected(&self, peer: Address) -> (r: bool)
        ensures
            r == self@.conns.contains(peer.raw),
    {
        self.conns.contains(&peer.raw)
    }

    /// Close the connection to `peer`, or note that writing to it failed.
    /// Returns whether there was one.
    pub fn drop_peer(&mut self, peer: Address) -> (r: bool)
        ensures
            final(self)@ == (L2capView { conns: old(self)@.conns.remove(peer.raw), ..old(self)@ }),
            r == old(self)@.conns.contains(peer.raw),
    {
        let ghost before = self@;
        let r = self.conns.remove(&peer.raw);
        assert(self@.conns =~= before.conns.remove(peer.raw));
        r
    }
}

#[derive(Debug)]
pub enum Transport {
    Log(LogTransport),
    L2cap(L2capTransport),
    /// HID over GATT — Bluetooth LE peripheral (see `bt::gatt`).
    Le(LeTransport),
}

/// The state of a [`Transport`].
pub enum TransportView {
    Log,
    L2cap(L2capView),
    Le(LeView),
}

impl View for Transport {
    type V = TransportView;

    open spec fn view(&self) -> TransportView {
        match self {
            Transport::Log(_) => TransportView::Log,
            Transport::L2cap(t) => TransportView::L2cap(t@),
            Transport::Le(t) => TransportView::Le(t@),
        }
    }
}

impl TransportView {
    pub open spec fn wf(self) -> bool {
        self matches TransportView::Le(t) ==> t.wf()
    }

    /// Whether frames for `peer` go anywhere. The log takes everybody's.
    pub open spec fn connected(self, peer: Address) -> bool {
        match self {
            TransportView::Log => true,
            TransportView::L2cap(t) => t.conns.contains(peer.raw),
            TransportView::Le(t) => t.connected(peer.raw),
        }
    }

    /// Whether `peer` takes this input report. A classic connection carries
    /// them all; an LE host enables them one by one.
    pub open spec fn subscribed(self, peer: Address, id: u8) -> bool {
        match self {
            TransportView::Log => true,
            TransportView::L2cap(t) => t.conns.contains(peer.raw),
            TransportView::Le(t) => t.subscribed(peer.raw, id),
        }
    }

    pub open spec fn listens(self) -> bool {
        match self {
            TransportView::Log => false,
            TransportView::L2cap(t) => t.listening,
            TransportView::Le(t) => t.listening,
        }
    }

    /// Without the connection to `peer`.
    pub open spec fn without(self, peer: Address) -> TransportView {
        match self {
            TransportView::Log => self,
            TransportView::L2cap(t) => TransportView::L2cap(
                L2capView { conns: t.conns.remove(peer.raw), ..t },
            ),
            TransportView::Le(t) => TransportView::Le(
                LeView { peers: t.peers.remove(peer.raw), ..t },
            ),
        }
    }

    /// With an outgoing connection to `peer`; only the classic transport can
    /// place one.
    pub open spec fn with_outgoing(self, peer: Address) -> TransportView {
        match self {
            TransportView::L2cap(t) => TransportView::L2cap(
                L2capView { conns: t.conns.insert(peer.raw), ..t },
            ),
            _ => self,
        }
    }
}

impl Transport {
    pub fn is_peer_connected(&self, peer: Address) -> (r: bool)
        requires
            self@.wf(),
        ensures
            r == self@.connected(peer),
    {
        match self {
            Transport::Log(_) => true,
            Transport::L2cap(t) => t.is_connected(peer),
            Transport::Le(t) => t.is_peer_connected(peer),
        }
    }

    pub fn is_subscribed(&self, peer: Address, id: u8) -> (r: bool)
        ensures
            r == self@.subscribed(peer, id),
    {
        match self {
            Transport::Log(_) => true,
            Transport::L2cap(t) => t.is_connected(peer),
            Transport::Le(t) => t.is_subscribed(peer, id),
        }
    }

    pub fn has_listeners(&self) -> (r: bool)
        ensures
            r == self@.listens(),
    {
        match self {
            Transport::Log(_) => false,
            Transport::L2cap(t) => t.listening,
            Transport::Le(t) => t.has_listeners(),
        }
    }

    /// Hosts dial *us* on LE; only the classic transport can place a call.
    pub fn can_dial(&self) -> (r: bool)
        ensures
            r == !(self@ is Le),
    {
        match self {
            Transport::Log(_) => true,
            Transport::L2cap(_) => true,
            Transport::Le(_) => false,
        }
    }

    /// Register a connection that was dialed.
    pub fn add_outgoing(&mut self, peer: Address)
        ensures
            final(self)@ == old(self)@.with_outgoing(peer),
            old(self)@.wf() ==> final(self)@.wf(),
    {
        match self {
            Transport::L2cap(t) => {
                t.insert(peer);
            },
            Transport::Log(_) => {},
            Transport::Le(_) => {},
        }
    }

    /// Close the connection to `peer` (if any).
    pub fn drop_peer(&mut self, peer: Address)
        requires
            old(self)@.wf(),
        ensures
            final(self)@ == old(self)@.without(peer),
            final(self)@.wf(),
    {
        match self {
            Transport::Log(_) => {},
            Transport::L2cap(t) => {
                t.drop_peer(peer);
            },
            Transport::Le(t) => {
                t.drop_peer(peer);
            },
        }
    }
}

/// What an accept gave.
#[derive(Debug, Clone, Copy, PartialEq, Eq, Structural)]
pub enum Incoming {
    /// A host opened both classic channels.
    Connected(Address),
    /// A host enabled an input report; `first` if it had none enabled before.
    Subscribed { peer: Address, report_id: u8, first: bool },
}

// ---------------------------------------------------------------------------
// Laws
// ---------------------------------------------------------------------------

/// Every request that asks for something is answered: only HID_CONTROL, DATA
/// and HANDSHAKE messages are not.
pub proof fn law_requests_are_answered(protocol: u8, request: Seq<u8>)
    requires
        request.len() > 0,
        request[0] / 16 != HIDP_HID_CONTROL,
        request[0] / 16 != HIDP_DATA,
        request[0] / 16 != HIDP_HANDSHAKE,
    ensures
        answered(protocol, request).1 matches AnswerView::Reply(bytes) && bytes.len() > 0,
{
}

/// The protocol a host sets is the protocol it reads back.
pub proof fn law_protocol_reads_back(protocol: u8, set: Seq<u8>, get: Seq<u8>)
    requires
        set.len() > 0,
        set[0] / 16 == HIDP_SET_PROTOCOL,
        get.len() > 0,
        get[0] / 16 == HIDP_GET_PROTOCOL,
    ensures
        answered(answered(protocol, set).0, get).1 == AnswerView::Reply(
            seq![HIDP_DATA_OTHER, (set[0] % 16) % 2],
        ),
{
}

/// A host that was dropped is not connected, and no other host is touched;
/// the log transport keeps no hosts.
pub proof fn law_dropping_touches_one_host(t: TransportView, peer: Address, other: Address, id: u8)
    requires
        !(t is Log),
        other.raw != peer.raw,
    ensures
        !t.without(peer).connected(peer),
        t.without(peer).connected(other) == t.connected(other),
        t.without(peer).subscribed(other, id) == t.subscribed(other, id),
{
}

/// Requests on the control channel, byte by byte: an input report is answered
/// with its zero state, a feature report with the battery's level where that
/// or none is named, setting is acknowledged, the protocol is told, and
/// unplugging closes the channel.
#[verifier::rlimit(30)]
pub proof fn law_control_answers(protocol: u8, request: Seq<u8>)
    requires
        request.len() > 0,
    ensures
        ({
            let head = request[0];
            let (after, answer) = answered(protocol, request);
            let named = request.len() > 1;
            let asks_input = head / 16 == 4 && head % 4 == 1;
            let asks_feature = head / 16 == 4 && head % 4 == 3;
            &&& asks_input && named && request[1] == 2 ==> answer == AnswerView::Reply(
                seq![0xA1u8, 2, 0, 0, 0, 0],
            )
            &&& asks_input && named && request[1] == 4 ==> answer == AnswerView::Reply(
                seq![0xA1u8, 4, 0, 0],
            )
            &&& asks_input && !(named && (request[1] == 2 || request[1] == 4)) ==> answer
                == AnswerView::Reply(seq![0xA1u8, 1, 0, 0, 0, 0, 0, 0, 0, 0])
            &&& asks_feature && (!named || request[1] == 3) ==> answer == AnswerView::Reply(
                seq![0xA3u8, 3, 100],
            )
            &&& asks_feature && named && request[1] != 3 ==> answer == AnswerView::Reply(seq![3u8])
            &&& head / 16 == 4 && !asks_input && !asks_feature ==> answer == AnswerView::Reply(
                seq![3u8],
            )
            &&& head / 16 == 5 ==> answer == AnswerView::Reply(seq![0u8])
            &&& head / 16 == 6 ==> answer == AnswerView::Reply(seq![0xA0u8, protocol])
            &&& head / 16 == 7 ==> answer == AnswerView::Reply(seq![0u8]) && after == head % 2
            &&& head == 0x15 ==> answer == AnswerView::Close
            &&& head / 16 == 1 && head != 0x15 ==> answer == AnswerView::Nothing
            &&& head / 16 == 0 || head / 16 == 10 ==> answer == AnswerView::Nothing
            &&& head / 16 == 2 || head / 16 == 3 || head / 16 == 8 || head / 16 == 9 || head / 16
                >= 11 ==> answer == AnswerView::Reply(seq![3u8])
            &&& head / 16 != 7 ==> after == protocol
        }),
{
    let id = if request.len() > 1 {
        Some(request[1])
    } else {
        None
    };
    assert((request[0] % 16) % 4 == request[0] % 4);
    assert((request[0] % 16) % 2 == request[0] % 2);
    assert(seq![HIDP_DATA_INPUT] + zero_report(id) =~= (if id == Some(2u8) {
        seq![0xA1u8, 2, 0, 0, 0, 0]
    } else if id == Some(4u8) {
        seq![0xA1u8, 4, 0, 0]
    } else {
        seq![0xA1u8, 1, 0, 0, 0, 0, 0, 0, 0, 0]
    }));
}

/// Nothing more to read closes the channel.
pub proof fn law_silence_closes(protocol: u8, request: Seq<u8>)
    requires
        request.len() == 0,
    ensures
        answered(protocol, request) == (protocol, AnswerView::Close),
{
}

/// Who is connected: on the log everybody, on the classic transport those with
/// a connection, on LE those with a subscription; and who takes which report.
pub proof fn law_who_is_connected(t: TransportView, peer: Address, other: Address, id: u8)
    ensures
        t is Log ==> t.connected(peer) && t.subscribed(peer, id) && !t.listens(),
        t is L2cap ==> (t.connected(peer) <==> t->L2cap_0.conns.contains(peer.raw)) && (t.subscribed(
            peer,
            id,
        ) <==> t->L2cap_0.conns.contains(peer.raw)) && t.listens() == t->L2cap_0.listening,
        t is Le ==> (t.connected(peer) <==> t->Le_0.peers.contains_key(peer.raw)) && (t.subscribed(
            peer,
            id,
        ) <==> t->Le_0.peers.contains_key(peer.raw) && t->Le_0.peers[peer.raw].subs.contains_key(
            id,
        )) && t.listens() == t->Le_0.listening,
        t is L2cap ==> t.with_outgoing(peer).connected(peer) && (other.raw != peer.raw
            ==> t.with_outgoing(peer).connected(other) == t.connected(other)),
        !(t is L2cap) ==> t.with_outgoing(peer) == t,
        t is Log ==> t.without(peer) == t,
        t.without(peer).listens() == t.listens(),
        t.with_outgoing(peer).listens() == t.listens(),
{
}

/// The channels and limits of the classic transport.
pub proof fn law_transport_constants()
    ensures
        PSM_HID_CONTROL == 0x11,
        PSM_HID_INTERRUPT == 0x13,
        WRITE_TIMEOUT_SECS == 2,
        CONTROL_BUFFER == 128,
        HIDP_DATA_INPUT == 0xA1,
        KEYBOARD_REPORT_ID == 1,
        MOUSE_REPORT_ID == 2,
        BATTERY_REPORT_ID == 3,
        CONSUMER_REPORT_ID == 4,
        BATTERY_LEVEL == 100,
{
}

} // verus!
