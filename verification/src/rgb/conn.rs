//! Driving an OpenRGB server: the handshake and device enumeration, the packets
//! a frame takes, and when to reconnect or ask for a rescan. The sockets and
//! timers are the caller's; this decides.

use vstd::prelude::*;

use crate::rgb;
use crate::rgb::proto;
use crate::rgb::proto::{Device, DeviceView, Mode, ModeView, Packet, ParseError};
use crate::rgb::Frame;
use crate::time::{Duration, Instant};
use crate::wire;

verus! {

broadcast use vstd::seq::group_seq_axioms;

pub const CLIENT_NAME: &'static str = "km-hub";

/// A reply the server never sends must not wedge the task.
pub const REPLY_TIMEOUT_SECS: u64 = 2;

pub const BACKOFF_MIN_SECS: u64 = 1;

pub const BACKOFF_MAX_SECS: u64 = 30;

/// OpenRGB only detects hardware when it starts. If it came up before the USB
/// devices were enumerated (a boot race) it has nothing to drive, so ask it to
/// look again — but only while we know of no devices at all, never as a poll
/// against working hardware.
pub const RESCAN_INTERVAL_SECS: u64 = 30;

// ---------------------------------------------------------------------------
// Targets
// ---------------------------------------------------------------------------

/// One OpenRGB device we drive, with the mode we picked for it.
pub struct Target {
    pub dev_idx: u32,
    pub name: String,
    pub led_count: u16,
    pub mode: Mode,
    /// The mode paints per-LED colors (`Direct`-style); otherwise the color
    /// rides along in the mode packet as a mode-specific color.
    pub per_led: bool,
    /// The mode packet has been sent at least once since (re)connecting.
    pub mode_pushed: bool,
}

/// The state of a [`Target`].
#[verifier::ext_equal]
pub struct TargetState {
    pub dev_idx: u32,
    pub name: Seq<char>,
    pub led_count: u16,
    pub mode: ModeView,
    pub per_led: bool,
    pub mode_pushed: bool,
}

impl View for Target {
    type V = TargetState;

    open spec fn view(&self) -> TargetState {
        TargetState {
            dev_idx: self.dev_idx,
            name: self.name@,
            led_count: self.led_count,
            mode: self.mode@,
            per_led: self.per_led,
            mode_pushed: self.mode_pushed,
        }
    }
}

/// The states of a list of targets.
pub open spec fn target_states(list: Seq<Target>) -> Seq<TargetState> {
    Seq::new(list.len(), |i: int| list[i]@)
}

/// How a device is driven: in its chosen mode, if that takes colors at all.
pub open spec fn driven(d: DeviceView) -> Option<TargetState> {
    match rgb::chosen_mode(d) {
        None => None,
        Some(i) => {
            let mode = d.modes[i];
            if mode.per_led() || mode.mode_specific() {
                Some(
                    TargetState {
                        dev_idx: d.index,
                        name: d.name,
                        led_count: d.led_count,
                        mode,
                        per_led: mode.per_led(),
                        mode_pushed: false,
                    },
                )
            } else {
                None
            }
        },
    }
}

/// How a device is driven: in its chosen mode, if that takes colors at all.
pub fn drive(device: &Device) -> (r: Option<Target>)
    ensures
        r matches Some(t) ==> driven(device@) == Some(t@),
        r is None ==> driven(device@) is None,
{
    let mode = match rgb::choose_mode(device) {
        Some(mode) => mode,
        None => {
            return None;
        },
    };
    assert(mode@ == device@.modes[rgb::chosen_mode(device@)->0]);
    let per_led = mode.has_per_led_color();
    if !per_led && !mode.has_mode_specific_color() {
        return None;
    }
    Some(
        Target {
            dev_idx: device.index,
            name: device.name.clone(),
            led_count: device.led_count,
            mode: mode.duplicate(),
            per_led,
            mode_pushed: false,
        },
    )
}

/// A mode at a brightness, where it has one to set; devices without it keep
/// their own.
pub open spec fn dimmed_mode(m: ModeView, percent: u8) -> ModeView {
    if m.dimmable() {
        ModeView { brightness: rgb::mapped_brightness(percent, m) as u32, ..m }
    } else {
        m
    }
}

/// A mode carrying a color of its own.
pub open spec fn painted_mode(m: ModeView, color: u32) -> ModeView {
    ModeView {
        colors: if m.colors.len() == 0 {
            seq![color]
        } else {
            m.colors.update(0, color)
        },
        color_mode: proto::MODE_COLORS_MODE_SPECIFIC,
        ..m
    }
}

impl TargetState {
    /// The mode that shows a frame.
    pub open spec fn tuned(self, frame: Frame) -> ModeView {
        let m = dimmed_mode(self.mode, frame.brightness);
        if self.per_led {
            m
        } else {
            painted_mode(m, frame.color.packed())
        }
    }

    /// The mode has to go out: it never did, or it changed.
    pub open spec fn mode_due(self, frame: Frame) -> bool {
        !self.mode_pushed || self.tuned(frame) != self.mode
    }

    /// What a frame takes on this device: its mode where that is due, and the
    /// LED colors where the mode paints per LED.
    pub open spec fn packets(self, frame: Frame) -> Seq<Seq<u8>> {
        (if self.mode_due(frame) {
            seq![proto::framed(self.dev_idx, proto::pkt::UPDATE_MODE, self.tuned(frame).encoded())]
        } else {
            Seq::empty()
        }) + (if self.per_led {
            seq![
                proto::framed(
                    self.dev_idx,
                    proto::pkt::UPDATE_LEDS,
                    proto::size_prefixed(proto::leds_body(frame.color, self.led_count)),
                ),
            ]
        } else {
            Seq::empty()
        })
    }

    /// The target once a frame was sent to it.
    pub open spec fn shown(self, frame: Frame) -> TargetState {
        TargetState { mode: self.tuned(frame), mode_pushed: true, ..self }
    }
}

/// A packet for one of the targets.
pub struct Update {
    /// Which target, by position.
    pub target: usize,
    pub bytes: Vec<u8>,
}

/// The contents of a list of byte strings.
pub open spec fn byte_lists(list: Seq<Vec<u8>>) -> Seq<Seq<u8>> {
    Seq::new(list.len(), |i: int| list[i]@)
}

/// The contents of a list of updates.
pub open spec fn update_views(list: Seq<Update>) -> Seq<(int, Seq<u8>)> {
    Seq::new(list.len(), |i: int| (list[i].target as int, list[i].bytes@))
}

/// Packets marked with the target they are for.
pub open spec fn tagged(target: int, packets: Seq<Seq<u8>>) -> Seq<(int, Seq<u8>)> {
    Seq::new(packets.len(), |i: int| (target, packets[i]))
}

/// The packets a frame takes on all targets, in order.
pub open spec fn all_packets(targets: Seq<TargetState>, frame: Frame) -> Seq<(int, Seq<u8>)>
    decreases targets.len(),
{
    if targets.len() == 0 {
        Seq::empty()
    } else {
        all_packets(targets.drop_last(), frame) + tagged(
            targets.len() - 1,
            targets.last().packets(frame),
        )
    }
}

/// The targets once a frame was sent to all of them.
pub open spec fn all_shown(targets: Seq<TargetState>, frame: Frame) -> Seq<TargetState> {
    Seq::new(targets.len(), |i: int| targets[i].shown(frame))
}

impl Target {
    /// Bring the mode to a frame and append the packets that takes, marked with
    /// this target's position.
    pub fn show(&mut self, position: usize, frame: Frame, out: &mut Vec<Update>)
        ensures
            update_views(final(out)@) == update_views(old(out)@) + tagged(
                position as int,
                old(self)@.packets(frame),
            ),
            final(self)@ == old(self)@.shown(frame),
    {
        let ghost before = self@;
        let ghost start = update_views(out@);
        let mut push_mode = !self.mode_pushed;
        // Brightness lives on the mode, and only where the mode says it has
        // one; devices without it keep their own.
        if self.mode.has_brightness() {
            let wanted = rgb::map_brightness(frame.brightness, &self.mode);
            if self.mode.brightness != wanted {
                self.mode.brightness = wanted;
                push_mode = true;
            }
        }
        assert(self.mode@ == dimmed_mode(before.mode, frame.brightness));
        let ghost middle = self.mode@;
        if !self.per_led {
            let word = frame.color.to_wire();
            if self.mode.colors.len() == 0 {
                self.mode.colors.push(word);
                self.mode.color_mode = proto::MODE_COLORS_MODE_SPECIFIC;
                push_mode = true;
                assert(self.mode@.colors =~= seq![word]);
                assert(self.mode@.colors.len() != middle.colors.len());
            } else if self.mode.colors[0] != word || self.mode.color_mode
                != proto::MODE_COLORS_MODE_SPECIFIC {
                self.mode.colors.set(0, word);
                self.mode.color_mode = proto::MODE_COLORS_MODE_SPECIFIC;
                push_mode = true;
                assert(middle.colors[0] != word ==> self.mode@.colors[0] != middle.colors[0]);
            } else {
                assert(middle.colors.update(0, word) =~= middle.colors);
            }
            assert(self.mode@ =~= painted_mode(middle, word));
        }
        assert(self.mode@ == before.tuned(frame));
        assert(push_mode == before.mode_due(frame));
        if push_mode {
            let ghost listed = out@;
            let bytes = proto::update_mode(self.dev_idx, &self.mode);
            out.push(Update { target: position, bytes });
            self.mode_pushed = true;
            assert(update_views(out@) =~= update_views(listed).push((position as int, bytes@)));
        }
        if self.per_led {
            let ghost listed = out@;
            let bytes = proto::update_leds(self.dev_idx, frame.color, self.led_count);
            out.push(Update { target: position, bytes });
            assert(update_views(out@) =~= update_views(listed).push((position as int, bytes@)));
        }
        assert(update_views(out@) =~= start + tagged(position as int, before.packets(frame)));
    }
}

// ---------------------------------------------------------------------------
// The session
// ---------------------------------------------------------------------------

/// What the session is waiting for.
#[derive(Debug, Clone, Copy, PartialEq, Eq, Structural)]
pub enum Phase {
    /// The server's protocol version.
    Version,
    /// How many devices there are.
    Count,
    /// The description of device `index` of `count`.
    Device { index: u32, count: u32 },
    /// Nothing: the devices are known.
    Ready,
}

/// Why a session cannot go on.
#[derive(Debug, Clone, Copy, PartialEq, Eq, Structural)]
pub enum SessionError {
    MalformedVersion,
    /// The server speaks an older protocol than we need.
    OldServer { version: u32 },
    MalformedCount,
    /// A description of another device than the one asked about.
    WrongDevice { got: u32, want: u32 },
    Description { index: u32, error: ParseError },
}

/// What to do after a packet.
#[derive(Debug)]
pub enum Step {
    /// Not the reply we wait for.
    Ignore,
    /// Ask this next, and wait for its reply.
    Send { bytes: Vec<u8> },
    /// The devices are known.
    Ready,
    /// Give the connection up.
    Fail { error: SessionError },
}

/// The content of a [`Step`].
pub enum StepView {
    Ignore,
    Send { bytes: Seq<u8> },
    Ready,
    Fail { error: SessionError },
}

impl View for Step {
    type V = StepView;

    open spec fn view(&self) -> StepView {
        match self {
            Step::Ignore => StepView::Ignore,
            Step::Send { bytes } => StepView::Send { bytes: bytes@ },
            Step::Ready => StepView::Ready,
            Step::Fail { error } => StepView::Fail { error: *error },
        }
    }
}

/// A conversation with the server: who the devices are, and what they show.
pub struct Session {
    phase: Phase,
    targets: Vec<Target>,
    /// Targets found by the enumeration under way.
    found: Vec<Target>,
    last: Option<Frame>,
}

/// The state of a [`Session`].
#[verifier::ext_equal]
pub struct SessionView {
    pub phase: Phase,
    pub targets: Seq<TargetState>,
    pub found: Seq<TargetState>,
    pub last: Option<Frame>,
}

impl View for Session {
    type V = SessionView;

    closed spec fn view(&self) -> SessionView {
        SessionView {
            phase: self.phase,
            targets: target_states(self.targets@),
            found: target_states(self.found@),
            last: self.last,
        }
    }
}

/// The packet that answers what a phase waits for.
pub open spec fn awaited_id(phase: Phase) -> Option<u32> {
    match phase {
        Phase::Version => Some(proto::pkt::PROTOCOL_VERSION),
        Phase::Count => Some(proto::pkt::CONTROLLER_COUNT),
        Phase::Device { .. } => Some(proto::pkt::CONTROLLER_DATA),
        Phase::Ready => None,
    }
}

pub open spec fn count_request() -> Seq<u8> {
    proto::framed(0, proto::pkt::CONTROLLER_COUNT, Seq::empty())
}

pub open spec fn device_request(index: u32) -> Seq<u8> {
    proto::framed(index, proto::pkt::CONTROLLER_DATA, wire::le32(proto::PROTOCOL_VERSION))
}

impl SessionView {
    pub open spec fn wf(self) -> bool {
        self.phase matches Phase::Device { index, count } ==> index < count
    }

    /// The session given up for a reason.
    pub open spec fn failed(self, error: SessionError) -> (SessionView, StepView) {
        (self, StepView::Fail { error })
    }

    /// The device list read anew.
    pub open spec fn enumerating(self) -> SessionView {
        SessionView { phase: Phase::Count, found: Seq::empty(), ..self }
    }

    /// The device list complete: it replaces the old one, and whatever was
    /// shown is shown again from scratch.
    pub open spec fn settled(self, found: Seq<TargetState>) -> SessionView {
        SessionView { phase: Phase::Ready, targets: found, found: Seq::empty(), last: None }
    }

    /// What a packet makes of the session, and what to do then.
    pub open spec fn received(self, dev_idx: u32, id: u32, data: Seq<u8>) -> (
        SessionView,
        StepView,
    ) {
        if awaited_id(self.phase) != Some(id) {
            (self, StepView::Ignore)
        } else {
            match self.phase {
                Phase::Version => if data.len() < 4 {
                    self.failed(SessionError::MalformedVersion)
                } else if wire::u32_at(data, 0) < proto::PROTOCOL_VERSION {
                    self.failed(SessionError::OldServer { version: wire::u32_at(data, 0) })
                } else {
                    (self.enumerating(), StepView::Send { bytes: count_request() })
                },
                Phase::Count => if data.len() < 4 {
                    self.failed(SessionError::MalformedCount)
                } else if wire::u32_at(data, 0) == 0 {
                    (self.settled(Seq::empty()), StepView::Ready)
                } else {
                    (
                        SessionView {
                            phase: Phase::Device { index: 0, count: wire::u32_at(data, 0) },
                            found: Seq::empty(),
                            ..self
                        },
                        StepView::Send { bytes: device_request(0) },
                    )
                },
                Phase::Device { index, count } => if dev_idx != index {
                    self.failed(SessionError::WrongDevice { got: dev_idx, want: index })
                } else {
                    match proto::parsed_device(index, data) {
                        Err(error) => self.failed(SessionError::Description { index, error }),
                        Ok(d) => {
                            let found = match driven(d) {
                                Some(t) => self.found.push(t),
                                None => self.found,
                            };
                            if index + 1 == count {
                                (self.settled(found), StepView::Ready)
                            } else {
                                (
                                    SessionView {
                                        phase: Phase::Device { index: (index + 1) as u32, count },
                                        found,
                                        ..self
                                    },
                                    StepView::Send { bytes: device_request((index + 1) as u32) },
                                )
                            }
                        },
                    }
                },
                Phase::Ready => (self, StepView::Ignore),
            }
        }
    }

    /// The packets a frame takes: none if it is what was last shown.
    pub open spec fn frame_packets(self, frame: Frame) -> Seq<(int, Seq<u8>)> {
        if self.last == Some(frame) {
            Seq::empty()
        } else {
            all_packets(self.targets, frame)
        }
    }

    /// The session once a frame was sent.
    pub open spec fn showing(self, frame: Frame) -> SessionView {
        if self.last == Some(frame) {
            self
        } else {
            SessionView { targets: all_shown(self.targets, frame), last: Some(frame), ..self }
        }
    }
}

/// The 32-bit number a reply starts with.
fn reply_number(data: &Vec<u8>) -> (r: Option<u32>)
    ensures
        r == if data@.len() < 4 {
            None::<u32>
        } else {
            Some(wire::u32_at(data@, 0))
        },
{
    if data.len() < 4 {
        None
    } else {
        Some(wire::read_u32(data.as_slice(), 0))
    }
}

impl Session {
    /// A connection just made: introduce ourselves with [`Session::hello`] and
    /// wait for the server's version.
    pub fn new() -> (r: Self)
        ensures
            r@ == (SessionView {
                phase: Phase::Version,
                targets: Seq::empty(),
                found: Seq::empty(),
                last: None,
            }),
            r@.wf(),
    {
        let r = Session {
            phase: Phase::Version,
            targets: Vec::new(),
            found: Vec::new(),
            last: None,
        };
        assert(r@.targets =~= Seq::empty());
        assert(r@.found =~= Seq::empty());
        r
    }

    /// What opens the conversation: our name, and which version we speak.
    pub fn hello() -> (r: Vec<Vec<u8>>)
        ensures
            byte_lists(r@) == seq![
                proto::framed(
                    0,
                    proto::pkt::SET_CLIENT_NAME,
                    vstd::utf8::encode_utf8(CLIENT_NAME@).push(0),
                ),
                proto::framed(
                    0,
                    proto::pkt::PROTOCOL_VERSION,
                    wire::le32(proto::PROTOCOL_VERSION),
                ),
            ],
    {
        let mut out: Vec<Vec<u8>> = Vec::new();
        let name = proto::req_client_name(CLIENT_NAME);
        let version = proto::req_protocol_version();
        out.push(name);
        out.push(version);
        assert(byte_lists(out@) =~= seq![name@, version@]);
        out
    }

    /// The packet that answers what the session waits for.
    pub fn awaited(&self) -> (r: Option<u32>)
        ensures
            r == awaited_id(self@.phase),
    {
        match self.phase {
            Phase::Version => Some(proto::pkt::PROTOCOL_VERSION),
            Phase::Count => Some(proto::pkt::CONTROLLER_COUNT),
            Phase::Device { .. } => Some(proto::pkt::CONTROLLER_DATA),
            Phase::Ready => None,
        }
    }

    /// How many devices are driven.
    pub fn target_count(&self) -> (r: usize)
        ensures
            r == self@.targets.len(),
    {
        self.targets.len()
    }

    /// What a driven device is called.
    pub fn target_name(&self, i: usize) -> (r: &str)
        requires
            i < self@.targets.len(),
        ensures
            r@ == self@.targets[i as int].name,
    {
        self.targets[i].name.as_str()
    }

    /// (Re)read the server's device list and pick a drivable mode per device.
    /// Called on connect and whenever the server announces a device change, so
    /// plugging the mouse in is picked up without restarting km-hub. The
    /// request to send.
    pub fn enumerate(&mut self) -> (r: Vec<u8>)
        ensures
            final(self)@ == old(self)@.enumerating(),
            r@ == count_request(),
            final(self)@.wf(),
    {
        self.phase = Phase::Count;
        self.found = Vec::new();
        assert(self@ =~= old(self)@.enumerating());
        proto::req_controller_count()
    }

    /// The device list is complete.
    fn settle(&mut self)
        ensures
            final(self)@ == old(self)@.settled(old(self)@.found),
    {
        let mut found: Vec<Target> = Vec::new();
        let ghost before = self@;
        std::mem::swap(&mut found, &mut self.found);
        self.targets = found;
        self.phase = Phase::Ready;
        // Force the next apply to push everything to the new device set.
        self.last = None;
        assert(self@ =~= before.settled(before.found));
    }

    /// Take a packet in. Unsolicited ones (a device list update racing with
    /// enumeration) are ignored.
    pub fn on_packet(&mut self, packet: &Packet) -> (r: Step)
        requires
            old(self)@.wf(),
        ensures
            (final(self)@, r@) == old(self)@.received(packet.dev_idx, packet.id, packet.data@),
            final(self)@.wf(),
    {
        let ghost before = self@;
        if self.awaited() != Some(packet.id) {
            return Step::Ignore;
        }
        match self.phase {
            Phase::Version => match reply_number(&packet.data) {
                None => Step::Fail { error: SessionError::MalformedVersion },
                Some(version) => {
                    if version < proto::PROTOCOL_VERSION {
                        return Step::Fail { error: SessionError::OldServer { version } };
                    }
                    let bytes = self.enumerate();
                    Step::Send { bytes }
                },
            },
            Phase::Count => match reply_number(&packet.data) {
                None => Step::Fail { error: SessionError::MalformedCount },
                Some(count) => {
                    self.found = Vec::new();
                    assert(self@.found =~= Seq::empty());
                    if count == 0 {
                        self.settle();
                        assert(self@ =~= before.settled(Seq::empty()));
                        return Step::Ready;
                    }
                    self.phase = Phase::Device { index: 0, count };
                    Step::Send { bytes: proto::req_controller_data(0) }
                },
            },
            Phase::Device { index, count } => {
                if packet.dev_idx != index {
                    return Step::Fail {
                        error: SessionError::WrongDevice { got: packet.dev_idx, want: index },
                    };
                }
                let device = match proto::parse_device(index, packet.data.as_slice()) {
                    Ok(device) => device,
                    Err(error) => {
                        return Step::Fail { error: SessionError::Description { index, error } };
                    },
                };
                if let Some(target) = drive(&device) {
                    let ghost list = self.found@;
                    self.found.push(target);
                    assert(target_states(self.found@) =~= target_states(list).push(target@));
                }
                if index + 1 == count {
                    self.settle();
                    return Step::Ready;
                }
                self.phase = Phase::Device { index: index + 1, count };
                Step::Send { bytes: proto::req_controller_data(index + 1) }
            },
            Phase::Ready => Step::Ignore,
        }
    }

    /// Bring all devices to a frame: the packets to send, in order. If one of
    /// them cannot be sent the connection is to be dropped.
    pub fn apply(&mut self, frame: Frame) -> (r: Vec<Update>)
        ensures
            update_views(r@) == old(self)@.frame_packets(frame),
            final(self)@ == old(self)@.showing(frame),
    {
        let mut out: Vec<Update> = Vec::new();
        let ghost before = self@;
        if self.last == Some(frame) {
            assert(update_views(out@) =~= Seq::empty());
            return out;
        }
        let ghost all = before.targets;
        let mut i: usize = 0;
        assert(update_views(out@) =~= Seq::empty());
        while i < self.targets.len()
            invariant
                i <= self.targets@.len(),
                self.targets@.len() == all.len(),
                self.phase == before.phase,
                target_states(self.found@) == before.found,
                forall|j: int| 0 <= j < i ==> (#[trigger] self.targets@[j])@ == all[j].shown(frame),
                forall|j: int| i <= j < all.len() ==> (#[trigger] self.targets@[j])@ == all[j],
                update_views(out@) == all_packets(all.take(i as int), frame),
            decreases self.targets@.len() - i,
        {
            assert(self.targets@[i as int]@ == all[i as int]);
            self.targets[i].show(i, frame, &mut out);
            assert(all.take(i + 1).drop_last() =~= all.take(i as int));
            i = i + 1;
        }
        self.last = Some(frame);
        assert(all.take(i as int) =~= all);
        assert(self@ =~= before.showing(frame));
        out
    }
}

// ---------------------------------------------------------------------------
// Laws of the session
// ---------------------------------------------------------------------------

/// A frame shown twice takes packets only once.
pub proof fn law_same_frame_is_sent_once(s: SessionView, frame: Frame)
    ensures
        s.showing(frame).frame_packets(frame) =~= Seq::empty(),
        s.showing(frame).showing(frame) == s.showing(frame),
{
}

/// After an enumeration the next frame repaints in full: every device gets its
/// mode again, and its LEDs where the mode paints them.
pub proof fn law_enumeration_repaints(s: SessionView, found: Seq<TargetState>, frame: Frame, i: int)
    requires
        0 <= i < found.len(),
        !found[i].mode_pushed,
    ensures
        s.settled(found).frame_packets(frame) == all_packets(found, frame),
        found[i].packets(frame).len() >= 1,
        found[i].packets(frame)[0] == proto::framed(
            found[i].dev_idx,
            proto::pkt::UPDATE_MODE,
            found[i].tuned(frame).encoded(),
        ),
{
}

/// A device found by enumeration has not been sent its mode yet.
pub proof fn law_found_targets_are_fresh(d: DeviceView)
    ensures
        driven(d) matches Some(t) ==> !t.mode_pushed && t.dev_idx == d.index,
{
}

/// A device without brightness control keeps its own brightness.
pub proof fn law_no_brightness_left_alone(t: TargetState, frame: Frame)
    requires
        !t.mode.dimmable(),
    ensures
        t.tuned(frame).brightness == t.mode.brightness,
{
}

/// Once a mode shows a frame, the same frame asks nothing more of it.
pub proof fn law_tuning_is_idempotent(t: TargetState, frame: Frame)
    ensures
        !t.shown(frame).mode_due(frame),
{
    let m = t.tuned(frame);
    let again = t.shown(frame).tuned(frame);
    assert(again =~= m) by {
        assert(dimmed_mode(m, frame.brightness) =~= m);
        if !t.per_led {
            assert(m.colors.len() > 0);
            assert(m.colors.update(0, frame.color.packed()) =~= m.colors);
        }
    }
}

/// A session never asks about a device it was not told of, and keeps what it
/// drives until the new list is complete.
pub proof fn law_session_stays_wf(s: SessionView, dev_idx: u32, id: u32, data: Seq<u8>)
    requires
        s.wf(),
    ensures
        s.received(dev_idx, id, data).0.wf(),
        !(s.received(dev_idx, id, data).1 is Ready) ==> s.received(dev_idx, id, data).0.targets
            == s.targets,
{
}

// ---------------------------------------------------------------------------
// Staying connected
// ---------------------------------------------------------------------------

/// When to connect, when to wait, when to ask for a rescan.
#[derive(Debug, Clone, Copy, PartialEq, Eq, Structural)]
pub struct Link {
    pub connected: bool,
    /// How long the next failure waits.
    pub backoff: Duration,
    pub retry_at: Instant,
    /// Set only while the server knows of no devices.
    pub rescan_at: Option<Instant>,
    /// The first outage is worth a warning; the retries after it are not.
    pub warned: bool,
}

/// Twice the wait, up to the longest.
pub open spec fn doubled(backoff: Duration) -> Duration {
    if 2 * backoff.nanos > Duration::of_secs(BACKOFF_MAX_SECS as int).nanos {
        Duration::of_secs(BACKOFF_MAX_SECS as int)
    } else {
        Duration { nanos: (2 * backoff.nanos) as u128 }
    }
}

/// A rescan is scheduled only when there is nothing to drive.
pub open spec fn rescan_deadline(targets: int, now: Instant) -> Option<Instant> {
    if targets == 0 {
        Some(now.plus(Duration::of_secs(RESCAN_INTERVAL_SECS as int)))
    } else {
        None
    }
}

impl Link {
    /// The wait stays between the shortest and the longest.
    pub open spec fn wf(self) -> bool {
        Duration::of_secs(BACKOFF_MIN_SECS as int).nanos <= self.backoff.nanos
            <= Duration::of_secs(BACKOFF_MAX_SECS as int).nanos
    }

    /// Disconnected, trying again after the wait.
    pub open spec fn dropped(self, now: Instant) -> Link {
        Link {
            connected: false,
            rescan_at: None,
            retry_at: now.plus(self.backoff),
            ..self
        }
    }

    /// Disconnected, trying again after the wait, with a longer wait to follow.
    pub open spec fn dropped_hard(self, now: Instant) -> Link {
        Link { backoff: doubled(self.backoff), ..self.dropped(now) }
    }

    /// Connected, with so many devices to drive.
    pub open spec fn established(self, targets: int, now: Instant) -> Link {
        Link {
            connected: true,
            rescan_at: rescan_deadline(targets, now),
            backoff: Duration::of_secs(BACKOFF_MIN_SECS as int),
            warned: false,
            ..self
        }
    }

    pub fn new(now: Instant) -> (r: Self)
        ensures
            r == (Link {
                connected: false,
                backoff: Duration::of_secs(BACKOFF_MIN_SECS as int),
                retry_at: now,
                rescan_at: None,
                warned: false,
            }),
            r.wf(),
    {
        Link {
            connected: false,
            backoff: Duration::from_secs(BACKOFF_MIN_SECS),
            retry_at: now,
            rescan_at: None,
            warned: false,
        }
    }

    /// Whether to try to connect now.
    pub fn wants_connect(&self, now: Instant) -> (r: bool)
        ensures
            r == (!self.connected && self.retry_at.reached(now)),
    {
        !self.connected && self.retry_at.is_reached(now)
    }

    /// Connected and enumerated.
    pub fn on_connected(&mut self, targets: usize, now: Instant)
        requires
            now.in_range(),
        ensures
            *final(self) == old(self).established(targets as int, now),
            final(self).wf(),
    {
        self.connected = true;
        self.rescan_at = next_rescan(targets, now);
        self.backoff = Duration::from_secs(BACKOFF_MIN_SECS);
        self.warned = false;
    }

    /// The server cannot be reached. Whether that is worth a warning.
    pub fn on_connect_failed(&mut self, now: Instant) -> (r: bool)
        requires
            old(self).wf(),
            now.in_range(),
        ensures
            r == !old(self).warned,
            *final(self) == (Link {
                warned: true,
                retry_at: now.plus(old(self).backoff),
                backoff: doubled(old(self).backoff),
                ..*old(self)
            }),
            final(self).wf(),
    {
        let first = !self.warned;
        self.warned = true;
        self.retry_at = now.after(self.backoff);
        self.backoff = longer(self.backoff);
        first
    }

    /// A write failed or the server closed the connection.
    pub fn on_lost(&mut self, now: Instant)
        requires
            old(self).wf(),
            now.in_range(),
        ensures
            *final(self) == old(self).dropped_hard(now),
            final(self).wf(),
    {
        self.on_session_failed(now);
        self.backoff = longer(self.backoff);
    }

    /// Re-reading the devices or asking for a rescan failed.
    pub fn on_session_failed(&mut self, now: Instant)
        requires
            old(self).wf(),
            now.in_range(),
        ensures
            *final(self) == old(self).dropped(now),
            final(self).wf(),
    {
        self.connected = false;
        self.rescan_at = None;
        self.retry_at = now.after(self.backoff);
    }

    /// The device list was read again.
    pub fn on_enumerated(&mut self, targets: usize, now: Instant)
        requires
            now.in_range(),
        ensures
            *final(self) == (Link {
                rescan_at: rescan_deadline(targets as int, now),
                ..*old(self)
            }),
    {
        self.rescan_at = next_rescan(targets, now);
    }

    /// The rescan deadline passed: ask the server to look again, and keep
    /// asking.
    pub fn on_rescan_due(&mut self, now: Instant)
        requires
            now.in_range(),
        ensures
            *final(self) == (Link {
                rescan_at: Some(now.plus(Duration::of_secs(RESCAN_INTERVAL_SECS as int))),
                ..*old(self)
            }),
    {
        self.rescan_at = Some(now.after(Duration::from_secs(RESCAN_INTERVAL_SECS)));
    }
}

/// Twice the wait, up to the longest.
fn longer(backoff: Duration) -> (r: Duration)
    requires
        backoff.nanos <= Duration::of_secs(BACKOFF_MAX_SECS as int).nanos,
    ensures
        r == doubled(backoff),
{
    let max = Duration::from_secs(BACKOFF_MAX_SECS);
    let twice: u128 = 2 * backoff.nanos;
    if twice > max.nanos {
        max
    } else {
        Duration { nanos: twice }
    }
}

/// Schedule a rescan only when there is nothing to drive.
fn next_rescan(targets: usize, now: Instant) -> (r: Option<Instant>)
    requires
        now.in_range(),
    ensures
        r == rescan_deadline(targets as int, now),
{
    if targets == 0 {
        Some(now.after(Duration::from_secs(RESCAN_INTERVAL_SECS)))
    } else {
        None
    }
}

/// Waits grow but never past the longest, and a connection resets them.
pub proof fn law_backoff_grows_to_its_cap(link: Link, now: Instant, targets: int)
    requires
        link.wf(),
    ensures
        link.dropped_hard(now).wf(),
        link.dropped_hard(now).backoff.nanos >= link.backoff.nanos,
        link.established(targets, now).backoff == Duration::of_secs(BACKOFF_MIN_SECS as int),
{
}

/// Working hardware is never polled: a rescan is pending only while connected
/// with nothing to drive.
pub proof fn law_rescan_only_without_devices(link: Link, targets: int, now: Instant)
    ensures
        targets > 0 ==> link.established(targets, now).rescan_at is None,
        link.dropped(now).rescan_at is None,
        link.dropped_hard(now).rescan_at is None,
{
}

// ---------------------------------------------------------------------------
// Laws of the enumeration
// ---------------------------------------------------------------------------

/// The session after the first `k` of a list of descriptions came in, each
/// under the number of its device.
pub open spec fn told(s: SessionView, list: Seq<Seq<u8>>, k: nat) -> SessionView
    decreases k,
{
    if k == 0 {
        s
    } else {
        told(s, list, (k - 1) as nat).received((k - 1) as u32, 1, list[k - 1]).0
    }
}

/// How the device of description `i` is driven, if it is.
pub open spec fn answer(list: Seq<Seq<u8>>, i: int) -> Option<TargetState> {
    match proto::parsed_device(i as u32, list[i]) {
        Ok(d) => driven(d),
        Err(_) => None,
    }
}

/// What an enumeration has gathered so far.
pub open spec fn gathered(s: SessionView) -> Seq<TargetState> {
    if s.phase is Ready {
        s.targets
    } else {
        s.found
    }
}

/// A list of targets holds those of the first `k` descriptions: every one of
/// them, nothing else, and in the order of the descriptions.
pub open spec fn holds_answers(targets: Seq<TargetState>, list: Seq<Seq<u8>>, k: int) -> bool {
    &&& forall|i: int|
        0 <= i < k && (#[trigger] answer(list, i)) is Some ==> targets.contains(answer(list, i)->0)
    &&& forall|j: int|
        0 <= j < targets.len() ==> 0 <= (#[trigger] targets[j]).dev_idx < k && answer(
            list,
            targets[j].dev_idx as int,
        ) == Some(targets[j])
    &&& forall|j: int, l: int|
        0 <= j < l < targets.len() ==> (#[trigger] targets[j]).dev_idx < (
        #[trigger] targets[l]).dev_idx
}

proof fn lemma_told(s: SessionView, list: Seq<Seq<u8>>, k: nat)
    requires
        0 < list.len() <= u32::MAX,
        s.phase == (Phase::Device { index: 0, count: list.len() as u32 }),
        s.found.len() == 0,
        forall|i: int|
            0 <= i < list.len() ==> (#[trigger] proto::parsed_device(i as u32, list[i])) is Ok,
        k <= list.len(),
    ensures
        k < list.len() ==> told(s, list, k).phase == (Phase::Device {
            index: k as u32,
            count: list.len() as u32,
        }) && told(s, list, k).targets == s.targets && told(s, list, k).last == s.last,
        k == list.len() ==> told(s, list, k).phase == Phase::Ready && told(s, list, k).last is None,
        holds_answers(gathered(told(s, list, k)), list, k as int),
    decreases k,
{
    if k > 0 {
        let i = (k - 1) as nat;
        lemma_told(s, list, i);
        let before = told(s, list, i);
        let after = told(s, list, k);
        let a = gathered(before);
        let b = gathered(after);
        assert(proto::parsed_device(i as u32, list[i as int]) is Ok);
        let d = proto::parsed_device(i as u32, list[i as int])->Ok_0;
        assert(d.index == i);
        assert(answer(list, i as int) == driven(d));
        match driven(d) {
            Some(t) => {
                assert(t.dev_idx == i);
                assert(b =~= a.push(t));
                assert(b[a.len() as int] == t);
                assert forall|x: int|
                    0 <= x < k && (#[trigger] answer(list, x)) is Some implies b.contains(
                    answer(list, x)->0,
                ) by {
                    if x < i {
                        let j = choose|j: int| 0 <= j < a.len() && a[j] == answer(list, x)->0;
                        assert(b[j] == a[j]);
                    }
                }
                assert forall|j: int| 0 <= j < b.len() implies 0 <= (#[trigger] b[j]).dev_idx < k
                    && answer(list, b[j].dev_idx as int) == Some(b[j]) by {
                    if j < a.len() {
                        assert(b[j] == a[j]);
                    }
                }
                assert forall|j: int, l: int| 0 <= j < l < b.len() implies (
                #[trigger] b[j]).dev_idx < (#[trigger] b[l]).dev_idx by {
                    assert(b[j] == a[j]);
                    if l < a.len() {
                        assert(b[l] == a[l]);
                    }
                }
            },
            None => {
                assert(b =~= a);
            },
        }
    }
}

/// When the description of every device has come in, the session is ready and
/// drives exactly the devices that can be driven, each under its own number
/// and in the order of their numbers; the frame last shown counts no more.
pub proof fn law_enumeration_finds_every_device(s: SessionView, list: Seq<Seq<u8>>)
    requires
        0 < list.len() <= u32::MAX,
        s.phase == (Phase::Device { index: 0, count: list.len() as u32 }),
        s.found.len() == 0,
        forall|i: int|
            0 <= i < list.len() ==> (#[trigger] proto::parsed_device(i as u32, list[i])) is Ok,
    ensures
        told(s, list, list.len()).phase == Phase::Ready,
        told(s, list, list.len()).last is None,
        forall|i: int|
            0 <= i < list.len() && (#[trigger] answer(list, i)) is Some ==> told(
                s,
                list,
                list.len(),
            ).targets.contains(answer(list, i)->0),
        forall|j: int|
            0 <= j < told(s, list, list.len()).targets.len() ==> (#[trigger] told(
                s,
                list,
                list.len(),
            ).targets[j]).dev_idx < list.len() && answer(
                list,
                told(s, list, list.len()).targets[j].dev_idx as int,
            ) == Some(told(s, list, list.len()).targets[j]),
        forall|j: int, l: int|
            0 <= j < l < told(s, list, list.len()).targets.len() ==> (#[trigger] told(
                s,
                list,
                list.len(),
            ).targets[j]).dev_idx < (#[trigger] told(s, list, list.len()).targets[l]).dev_idx,
{
    lemma_told(s, list, list.len());
}

/// Until the last description is in, the session goes on driving what it
/// drove, and asks for each device in turn.
pub proof fn law_enumeration_asks_in_turn(s: SessionView, list: Seq<Seq<u8>>, k: nat)
    requires
        0 < list.len() <= u32::MAX,
        s.phase == (Phase::Device { index: 0, count: list.len() as u32 }),
        s.found.len() == 0,
        forall|i: int|
            0 <= i < list.len() ==> (#[trigger] proto::parsed_device(i as u32, list[i])) is Ok,
        k < list.len(),
    ensures
        told(s, list, k).targets == s.targets,
        k + 1 < list.len() ==> told(s, list, k).received(k as u32, 1, list[k as int]).1
            == (StepView::Send { bytes: device_request((k + 1) as u32) }),
        k + 1 == list.len() ==> told(s, list, k).received(k as u32, 1, list[k as int]).1
            == StepView::Ready,
{
    lemma_told(s, list, k);
    assert(proto::parsed_device(k as u32, list[k as int]) is Ok);
}

/// A description that comes in only ever adds to what was found before, and
/// adds at most the one device it describes.
pub proof fn law_descriptions_only_add(s: SessionView, dev_idx: u32, id: u32, data: Seq<u8>)
    requires
        s.wf(),
        s.phase is Device,
    ensures
        gathered(s.received(dev_idx, id, data).0).len() >= s.found.len(),
        gathered(s.received(dev_idx, id, data).0).len() <= s.found.len() + 1,
        forall|j: int|
            0 <= j < s.found.len() ==> gathered(s.received(dev_idx, id, data).0)[j]
                == #[trigger] s.found[j],
        gathered(s.received(dev_idx, id, data).0).len() > s.found.len() ==> id == 1 && dev_idx
            == s.phase->index && gathered(s.received(dev_idx, id, data).0).last().dev_idx
            == dev_idx,
{
}

/// The handshake: a server below version 3 is refused, any other is asked how
/// many devices it has; told of none the session is ready with nothing to
/// drive, told of some it asks about the first.
pub proof fn law_handshake(s: SessionView, dev_idx: u32, data: Seq<u8>)
    requires
        data.len() >= 4,
    ensures
        ({
            let n = data[0] + 256 * data[1] + 65536 * data[2] + 16777216 * data[3];
            &&& s.phase is Version && n < 3 ==> s.received(dev_idx, 40, data).1
                == (StepView::Fail { error: SessionError::OldServer { version: n as u32 } })
            &&& s.phase is Version && n >= 3 ==> s.received(dev_idx, 40, data).1
                == (StepView::Send { bytes: count_request() }) && s.received(
                dev_idx,
                40,
                data,
            ).0.phase == Phase::Count
            &&& s.phase is Count && n == 0 ==> s.received(dev_idx, 0, data).1 == StepView::Ready
                && s.received(dev_idx, 0, data).0.phase == Phase::Ready && s.received(
                dev_idx,
                0,
                data,
            ).0.targets.len() == 0
            &&& s.phase is Count && n > 0 ==> s.received(dev_idx, 0, data).1 == (StepView::Send {
                bytes: device_request(0),
            }) && s.received(dev_idx, 0, data).0.phase == (Phase::Device {
                index: 0,
                count: n as u32,
            }) && s.received(dev_idx, 0, data).0.found.len() == 0
        }),
{
}

/// What is not the reply the session waits for changes nothing, and a ready
/// session waits for none. A reply too short, for another device or not to be
/// read ends the session.
pub proof fn law_other_packets_are_ignored(s: SessionView, dev_idx: u32, id: u32, data: Seq<u8>)
    ensures
        s.phase is Ready ==> s.received(dev_idx, id, data) == (s, StepView::Ignore),
        s.phase is Version && id != 40 ==> s.received(dev_idx, id, data) == (s, StepView::Ignore),
        s.phase is Count && id != 0 ==> s.received(dev_idx, id, data) == (s, StepView::Ignore),
        s.phase is Device && id != 1 ==> s.received(dev_idx, id, data) == (s, StepView::Ignore),
        s.phase is Version && id == 40 && data.len() < 4 ==> s.received(dev_idx, id, data).1
            == (StepView::Fail { error: SessionError::MalformedVersion }),
        s.phase is Count && id == 0 && data.len() < 4 ==> s.received(dev_idx, id, data).1
            == (StepView::Fail { error: SessionError::MalformedCount }),
        s.phase is Device && id == 1 && dev_idx != s.phase->index ==> s.received(
            dev_idx,
            id,
            data,
        ).1 == (StepView::Fail {
            error: SessionError::WrongDevice { got: dev_idx, want: s.phase->index },
        }),
        s.phase is Device && id == 1 && dev_idx == s.phase->index && proto::parsed_device(
            dev_idx,
            data,
        ) is Err ==> s.received(dev_idx, id, data).1 == (StepView::Fail {
            error: SessionError::Description {
                index: dev_idx,
                error: proto::parsed_device(dev_idx, data)->Err_0,
            },
        }),
{
}

/// The two requests of an enumeration, byte for byte: `ORGB`, the device, the
/// packet's number, the payload's size, and the version the description is
/// wanted in.
pub proof fn law_requests_as_bytes(index: u32)
    ensures
        count_request() == seq![79u8, 82, 71, 66, 0, 0, 0, 0, 0, 0, 0, 0, 0, 0, 0, 0],
        device_request(index).len() == 20,
        device_request(index).take(4) == seq![79u8, 82, 71, 66],
        device_request(index)[4] + 256 * device_request(index)[5] + 65536 * device_request(index)[6]
            + 16777216 * device_request(index)[7] == index,
        device_request(index).skip(8) == seq![1u8, 0, 0, 0, 4, 0, 0, 0, 3, 0, 0, 0],
{
    broadcast use vstd::array::group_array_axioms;

    wire::lemma_u32_digits(index);
    assert(proto::MAGIC@.len() == 4);
    assert(count_request() =~= seq![79u8, 82, 71, 66, 0, 0, 0, 0, 0, 0, 0, 0, 0, 0, 0, 0]);
    assert(device_request(index).take(4) =~= seq![79u8, 82, 71, 66]);
    assert(device_request(index).skip(8) =~= seq![1u8, 0, 0, 0, 4, 0, 0, 0, 3, 0, 0, 0]);
}

// ---------------------------------------------------------------------------
// Laws of what the devices are sent
// ---------------------------------------------------------------------------

/// A device is driven exactly when its chosen mode takes colors: per LED, or
/// as a color of the mode itself where that has room for one.
pub proof fn law_who_is_driven(d: DeviceView)
    ensures
        driven(d) is Some <==> rgb::chosen_mode(d) is Some && (d.modes[rgb::chosen_mode(
            d,
        )->0].flags & 0x20 != 0 || (d.modes[rgb::chosen_mode(d)->0].flags & 0x40 != 0
            && d.modes[rgb::chosen_mode(d)->0].colors_max > 0)),
        driven(d) is Some ==> (driven(d)->0).dev_idx == d.index && (driven(d)->0).name == d.name && (
        driven(d)->0).led_count == d.led_count && (driven(d)->0).mode == d.modes[rgb::chosen_mode(
            d,
        )->0] && !(driven(d)->0).mode_pushed && ((driven(d)->0).per_led <==> d.modes[rgb::chosen_mode(
            d,
        )->0].flags & 0x20 != 0),
{
}

/// The mode that shows a frame: the frame's brightness where the mode has one
/// to set, the frame's color as the mode's own where it does not paint per
/// LED, and everything else as it was.
pub proof fn law_a_mode_shows_its_frame(t: TargetState, frame: Frame)
    ensures
        t.mode.flags & 0x10 != 0 && t.mode.brightness_min <= t.mode.brightness_max ==> t.tuned(
            frame,
        ).brightness == rgb::mapped_brightness(frame.brightness, t.mode),
        t.mode.flags & 0x10 == 0 ==> t.tuned(frame).brightness == t.mode.brightness,
        !t.per_led ==> t.tuned(frame).color_mode == 2 && t.tuned(frame).colors.len() > 0 && t.tuned(
            frame,
        ).colors[0] == frame.color.r + 256 * frame.color.g + 65536 * frame.color.b,
        !t.per_led ==> (forall|i: int|
            0 < i < t.mode.colors.len() ==> t.tuned(frame).colors[i] == t.mode.colors[i]),
        !t.per_led && t.mode.colors.len() > 0 ==> t.tuned(frame).colors.len()
            == t.mode.colors.len(),
        t.per_led ==> t.tuned(frame).colors == t.mode.colors && t.tuned(frame).color_mode
            == t.mode.color_mode,
        t.tuned(frame).index == t.mode.index,
        t.tuned(frame).name == t.mode.name,
        t.tuned(frame).value == t.mode.value,
        t.tuned(frame).flags == t.mode.flags,
        t.tuned(frame).speed_min == t.mode.speed_min,
        t.tuned(frame).speed_max == t.mode.speed_max,
        t.tuned(frame).brightness_min == t.mode.brightness_min,
        t.tuned(frame).brightness_max == t.mode.brightness_max,
        t.tuned(frame).colors_min == t.mode.colors_min,
        t.tuned(frame).colors_max == t.mode.colors_max,
        t.tuned(frame).speed == t.mode.speed,
        t.tuned(frame).direction == t.mode.direction,
{
    if t.mode.brightness_min <= t.mode.brightness_max {
        rgb::law_brightness_in_range(frame.brightness, t.mode);
    }
}

proof fn lemma_packets_reach(targets: Seq<TargetState>, frame: Frame, j: int, p: Seq<u8>)
    requires
        0 <= j < targets.len(),
        targets[j].packets(frame).contains(p),
    ensures
        all_packets(targets, frame).contains((j, p)),
    decreases targets.len(),
{
    let front = all_packets(targets.drop_last(), frame);
    let back = tagged(targets.len() - 1, targets.last().packets(frame));
    let all = all_packets(targets, frame);
    assert(all == front + back);
    if j < targets.len() - 1 {
        lemma_packets_reach(targets.drop_last(), frame, j, p);
        let x = choose|x: int| 0 <= x < front.len() && front[x] == (j, p);
        assert(all[x] == (j, p));
    } else {
        let ps = targets[j].packets(frame);
        let x = choose|x: int| 0 <= x < ps.len() && ps[x] == p;
        assert(back[x] == (j, p));
        assert(all[front.len() + x] == (j, p));
    }
}

/// A frame that is not shown yet reaches every device: one that paints per LED
/// is sent the color for each LED, and each is sent its mode where it was never
/// sent or the frame changes it.
pub proof fn law_a_frame_reaches_every_device(s: SessionView, frame: Frame, j: int)
    requires
        s.last != Some(frame),
        0 <= j < s.targets.len(),
    ensures
        s.targets[j].per_led ==> s.frame_packets(frame).contains(
            (
                j,
                proto::framed(
                    s.targets[j].dev_idx,
                    1050,
                    proto::size_prefixed(proto::leds_body(frame.color, s.targets[j].led_count)),
                ),
            ),
        ),
        !s.targets[j].mode_pushed || s.targets[j].tuned(frame) != s.targets[j].mode
            ==> s.frame_packets(frame).contains(
            (j, proto::framed(s.targets[j].dev_idx, 1101, s.targets[j].tuned(frame).encoded())),
        ),
        s.showing(frame).last == Some(frame),
        s.showing(frame).targets.len() == s.targets.len(),
        s.showing(frame).targets[j].mode == s.targets[j].tuned(frame),
        s.showing(frame).targets[j].mode_pushed,
        s.showing(frame).targets[j].dev_idx == s.targets[j].dev_idx,
        s.showing(frame).targets[j].led_count == s.targets[j].led_count,
        s.showing(frame).targets[j].per_led == s.targets[j].per_led,
{
    let t = s.targets[j];
    let ps = t.packets(frame);
    let leds = proto::framed(
        t.dev_idx,
        1050,
        proto::size_prefixed(proto::leds_body(frame.color, t.led_count)),
    );
    let mode = proto::framed(t.dev_idx, 1101, t.tuned(frame).encoded());
    if t.per_led {
        assert(ps[ps.len() - 1] == leds);
        lemma_packets_reach(s.targets, frame, j, leds);
    }
    if !t.mode_pushed || t.tuned(frame) != t.mode {
        assert(ps[0] == mode);
        lemma_packets_reach(s.targets, frame, j, mode);
    }
}

/// A device is sent nothing it need not be: at most its mode and then its
/// LEDs, and neither where the mode is already right and paints no LEDs.
pub proof fn law_no_needless_packets(t: TargetState, frame: Frame)
    ensures
        t.packets(frame).len() == (if !t.mode_pushed || t.tuned(frame) != t.mode {
            1int
        } else {
            0
        }) + (if t.per_led {
            1int
        } else {
            0
        }),
{
}

/// Waits in nanoseconds: a failure is retried after the wait in force, which
/// then doubles, up to thirty seconds; a connection brings it back to one
/// second; with nothing to drive a rescan is asked for after thirty.
pub proof fn law_connection_times(link: Link, now: Instant, targets: int)
    requires
        now.in_range(),
        link.backoff.nanos <= 30_000_000_000,
    ensures
        !link.dropped(now).connected,
        link.dropped(now).retry_at.nanos == now.nanos + link.backoff.nanos,
        link.dropped(now).backoff == link.backoff,
        link.dropped(now).rescan_at is None,
        !link.dropped_hard(now).connected,
        link.dropped_hard(now).retry_at.nanos == now.nanos + link.backoff.nanos,
        link.backoff.nanos <= 15_000_000_000 ==> link.dropped_hard(now).backoff.nanos == 2
            * link.backoff.nanos,
        link.backoff.nanos > 15_000_000_000 ==> link.dropped_hard(now).backoff.nanos
            == 30_000_000_000,
        doubled(link.backoff) == link.dropped_hard(now).backoff,
        link.established(targets, now).connected,
        !link.established(targets, now).warned,
        link.established(targets, now).backoff.nanos == 1_000_000_000,
        targets == 0 ==> link.established(targets, now).rescan_at is Some && (link.established(
            targets,
            now,
        ).rescan_at->0).nanos == now.nanos + 30_000_000_000,
        targets != 0 ==> link.established(targets, now).rescan_at is None,
        rescan_deadline(targets, now) == link.established(targets, now).rescan_at,
{
}

/// The numbers and the name the session introduces itself with, and how long
/// it waits for a reply.
pub proof fn law_session_constants()
    ensures
        CLIENT_NAME@ == seq!['k', 'm', '-', 'h', 'u', 'b'],
        REPLY_TIMEOUT_SECS == 2,
        BACKOFF_MIN_SECS == 1,
        BACKOFF_MAX_SECS == 30,
        RESCAN_INTERVAL_SECS == 30,
        proto::PROTOCOL_VERSION == 3,
        proto::pkt::CONTROLLER_COUNT == 0,
        proto::pkt::CONTROLLER_DATA == 1,
        proto::pkt::PROTOCOL_VERSION == 40,
        proto::pkt::SET_CLIENT_NAME == 50,
        proto::pkt::DEVICE_LIST_UPDATED == 100,
        proto::pkt::RESCAN_DEVICES == 140,
        proto::pkt::UPDATE_LEDS == 1050,
        proto::pkt::UPDATE_MODE == 1101,
{
    reveal_strlit("km-hub");
    assert(CLIENT_NAME@ =~= seq!['k', 'm', '-', 'h', 'u', 'b']);
}

/// Whatever goes out for a frame is one of the packets that the device it is
/// marked with takes, and a mode goes out before the colors that need it.
pub proof fn law_packets_are_for_their_device(targets: Seq<TargetState>, frame: Frame, x: int)
    requires
        0 <= x < all_packets(targets, frame).len(),
    ensures
        0 <= all_packets(targets, frame)[x].0 < targets.len(),
        targets[all_packets(targets, frame)[x].0].packets(frame).contains(
            all_packets(targets, frame)[x].1,
        ),
        targets[all_packets(targets, frame)[x].0].packets(frame).len() == 2
            ==> targets[all_packets(targets, frame)[x].0].packets(frame)[0] == proto::framed(
            targets[all_packets(targets, frame)[x].0].dev_idx,
            1101,
            targets[all_packets(targets, frame)[x].0].tuned(frame).encoded(),
        ),
    decreases targets.len(),
{
    let front = all_packets(targets.drop_last(), frame);
    let back = tagged(targets.len() - 1, targets.last().packets(frame));
    if x < front.len() {
        law_packets_are_for_their_device(targets.drop_last(), frame, x);
        assert(targets.drop_last()[front[x].0] == targets[front[x].0]);
    } else {
        let ps = targets.last().packets(frame);
        assert(back[x - front.len()] == all_packets(targets, frame)[x]);
        assert(ps[x - front.len()] == all_packets(targets, frame)[x].1);
    }
}

/// Reading the list anew starts from nothing found, waits for the count, and
/// leaves what is driven and shown alone until it is complete; then whatever
/// was shown counts no more.
pub proof fn law_enumeration_starts_over(s: SessionView, found: Seq<TargetState>)
    ensures
        s.enumerating().phase == Phase::Count,
        s.enumerating().found.len() == 0,
        s.enumerating().targets == s.targets,
        s.enumerating().last == s.last,
        s.settled(found).phase == Phase::Ready,
        s.settled(found).targets == found,
        s.settled(found).found.len() == 0,
        s.settled(found).last is None,
{
}

} // verus!
