//! The connection manager's decisions: pairing windows with dynamic slot
//! binding, whom to advertise for, whom to keep connected, which frames to
//! hold for a host that is on its way back, and what to do about a host that
//! is connected but deaf.
//!
//! The manager never talks to the radio. What it is told — the time, which
//! bound hosts are connected, what an accept gave — comes in as arguments;
//! what has to be done goes out as a result.

use std::collections::{HashMap, HashSet};
use vstd::prelude::*;

use crate::bt::addr::Address;
use crate::bt::gatt::{REPORT_ID_CONSUMER, REPORT_ID_KEYBOARD, REPORT_ID_MOUSE};
use crate::bt::replay;
use crate::bt::replay::{Push, ReplayBuffer, ReplayView};
use crate::bt::transport::{Transport, TransportView};
use crate::bt::{BtCmd, TransportKind};
use crate::config;
use crate::config::{Connections, Settings, TargetView, LOCAL_SLOT};
use crate::hid::HidFrame;
use crate::state;
use crate::state::{Binding, BindingView, Bindings};
use crate::time::{Duration, Instant};

verus! {

broadcast use {
    vstd::seq::group_seq_axioms,
    vstd::std_specs::hash::group_hash_axioms,
    vstd::std_specs::btree::group_btree_axioms,
};

/// How long a pairing window stays open.
pub const PAIRING_WINDOW_SECS: u64 = 60;

/// A bound host connected this long without any input-report session is
/// taken to be stuck behind bluetoothd's remembered CCC state. Reconnecting
/// hosts subscribe well inside a second; a full rediscovery took ~1.5 s.
pub const STUCK_HOST_GRACE_SECS: u64 = 3;

/// How long a kicked host stays "already kicked": stuck again inside this
/// window means the reconnect did not help and the CCC state must be cleared
/// by re-registering. Hosts reconnect within a second or two; the slack is
/// for phones that take their time.
pub const KICK_MEMORY_SECS: u64 = 30;

/// Minimum spacing between two GATT re-registrations.
pub const REREGISTER_COOLDOWN_SECS: u64 = 10;

/// An advertisement is unregistered in the background; give it a moment
/// before registering the replacement or the two overlap.
pub const ADV_REREGISTER_DELAY_MS: u64 = 250;

/// How long frames are held for a host that has not come back after a slot
/// switch. Reconnects take a second or two, a stuck reconnect one kick
/// (`STUCK_HOST_GRACE_SECS`) more; after this the buffered input is stale.
pub const REPLAY_WINDOW_SECS: u64 = 8;

/// Minimum spacing between two "disconnect, your slot is not active" nudges
/// to the same host; bluetoothd takes up to 2 s to actually drop the link.
pub const EVICT_COOLDOWN_SECS: u64 = 5;

// ---------------------------------------------------------------------------
// Notes on hosts
// ---------------------------------------------------------------------------

/// Whether `at` is less than `secs` seconds before `now`.
pub open spec fn within(at: Instant, now: Instant, secs: u64) -> bool {
    now.since(at).nanos < Duration::of_secs(secs as int).nanos
}

/// The notes that are less than `secs` seconds old.
pub open spec fn recent(notes: Map<u64, Instant>, now: Instant, secs: u64) -> Map<u64, Instant> {
    notes.restrict(Set::new(|a: u64| notes.contains_key(a) && within(notes[a], now, secs)))
}

fn is_within(at: Instant, now: Instant, secs: u64) -> (r: bool)
    ensures
        r == within(at, now, secs),
{
    now.duration_since(at).nanos < Duration::from_secs(secs).nanos
}

/// Drop the notes that are `secs` seconds old or older.
fn retain_recent(notes: &mut HashMap<u64, Instant>, now: Instant, secs: u64)
    ensures
        final(notes)@ == recent(old(notes)@, now, secs),
{
    let ghost before = notes@;
    let mut keys: Vec<u64> = Vec::new();
    for k in it: notes.keys()
        invariant
            keys@ == it.seq().unref().take(it.index()),
            it.seq().unref().to_set() == notes@.dom(),
            notes@ == before,
            it.index() == it.seq().len() ==> keys@ == it.seq().unref(),
    {
        keys.push(*k);
        assert(it.seq().unref().take(it.seq().len() as int) =~= it.seq().unref());
        assert(it.seq().unref().take(it.index() + 1) =~= it.seq().unref().take(it.index()).push(*k));
    }
    assert(keys@.to_set() == before.dom());
    let mut i: usize = 0;
    while i < keys.len()
        invariant
            i <= keys@.len(),
            keys@.to_set() == before.dom(),
            forall|a: u64| #[trigger]
                notes@.contains_key(a) ==> before.contains_key(a) && notes@[a] == before[a],
            forall|j: int|
                0 <= j < i ==> (notes@.contains_key(#[trigger] keys@[j]) <==> within(
                    before[keys@[j]],
                    now,
                    secs,
                )),
            forall|a: u64| #[trigger]
                before.contains_key(a) && within(before[a], now, secs) ==> notes@.contains_key(a),
        decreases keys@.len() - i,
    {
        let key: u64 = keys[i];
        assert(keys@.to_set().contains(key));
        let ghost previous = notes@;
        let stale = match notes.get(&key) {
            Some(at) => !is_within(*at, now, secs),
            None => false,
        };
        if stale {
            notes.remove(&key);
            assert(notes@ =~= previous.remove(key));
        }
        i = i + 1;
    }
    assert forall|a: u64| #[trigger] notes@.contains_key(a) implies within(
        before[a],
        now,
        secs,
    ) by {
        assert(keys@.to_set().contains(a));
        let j = choose|j: int| 0 <= j < keys@.len() && keys@[j] == a;
        assert(keys@[j] == a);
    }
    assert(notes@ =~= recent(before, now, secs));
}

// ---------------------------------------------------------------------------
// Bound hosts
// ---------------------------------------------------------------------------

/// The host bound to a slot.
pub open spec fn host_at(m: Map<u8, BindingView>, slot: u8) -> Option<Address> {
    if m.contains_key(slot) {
        Some(m[slot].addr)
    } else {
        None
    }
}

/// The lowest slot below `n` that a host is bound to.
pub open spec fn first_slot(m: Map<u8, BindingView>, addr: Address, n: nat) -> Option<u8>
    decreases n,
{
    if n == 0 {
        None
    } else {
        let slot = (n - 1) as u8;
        match first_slot(m, addr, (n - 1) as nat) {
            Some(lower) => Some(lower),
            None => if host_at(m, slot) == Some(addr) {
                Some(slot)
            } else {
                None
            },
        }
    }
}

/// The hosts bound to slots below `n`, by slot.
pub open spec fn bound_below(m: Map<u8, BindingView>, n: nat) -> Seq<Address>
    decreases n,
{
    if n == 0 {
        Seq::empty()
    } else {
        let before = bound_below(m, (n - 1) as nat);
        match host_at(m, (n - 1) as u8) {
            Some(addr) => before.push(addr),
            None => before,
        }
    }
}

/// Whether a host is bound to any slot.
pub open spec fn is_bound(m: Map<u8, BindingView>, addr: Address) -> bool {
    exists|slot: u8| #[trigger] host_at(m, slot) == Some(addr)
}

/// The name a configured target gives to a slot.
pub open spec fn configured_name(targets: Seq<TargetView>, slot: u8) -> Option<Seq<char>>
    decreases targets.len(),
{
    if targets.len() == 0 {
        None
    } else {
        match configured_name(targets.drop_last(), slot) {
            Some(name) => Some(name),
            None => if targets.last().slot == slot {
                Some(targets.last().name)
            } else {
                None
            },
        }
    }
}

proof fn lemma_first_slot(m: Map<u8, BindingView>, addr: Address, n: nat)
    requires
        n <= 256,
    ensures
        first_slot(m, addr, n) matches Some(s) ==> s < n && host_at(m, s) == Some(addr) && forall|
            lower: u8,
        |
            lower < s ==> #[trigger] host_at(m, lower) != Some(addr),
        first_slot(m, addr, n) is None ==> forall|slot: u8|
            slot < n ==> #[trigger] host_at(m, slot) != Some(addr),
    decreases n,
{
    if n > 0 {
        lemma_first_slot(m, addr, (n - 1) as nat);
    }
}

proof fn lemma_bound_below(m: Map<u8, BindingView>, n: nat)
    requires
        n <= 256,
    ensures
        forall|slot: u8|
            slot < n && m.contains_key(slot) ==> bound_below(m, n).contains(
                #[trigger] m[slot].addr,
            ),
        forall|i: int|
            0 <= i < bound_below(m, n).len() ==> is_bound(m, #[trigger] bound_below(m, n)[i]),
    decreases n,
{
    if n > 0 {
        lemma_bound_below(m, (n - 1) as nat);
        let before = bound_below(m, (n - 1) as nat);
        let all = bound_below(m, n);
        let last = (n - 1) as u8;
        assert forall|slot: u8| slot < n && m.contains_key(slot) implies all.contains(
            #[trigger] m[slot].addr,
        ) by {
            if slot < n - 1 {
                let i = choose|i: int| 0 <= i < before.len() && before[i] == m[slot].addr;
                assert(all[i] == m[slot].addr);
            } else {
                assert(host_at(m, last) == Some(m[slot].addr));
                assert(all[all.len() - 1] == m[slot].addr);
            }
        }
        assert forall|i: int| 0 <= i < all.len() implies is_bound(m, #[trigger] all[i]) by {
            if i < before.len() {
                assert(all[i] == before[i]);
            } else {
                assert(host_at(m, last) == Some(all[i]));
            }
        }
    }
}

proof fn lemma_configured_name(targets: Seq<TargetView>, slot: u8, i: int)
    requires
        0 <= i < targets.len(),
        targets[i].slot == slot,
        forall|j: int| 0 <= j < i ==> (#[trigger] targets[j]).slot != slot,
    ensures
        configured_name(targets, slot) == Some(targets[i].name),
    decreases targets.len(),
{
    let init = targets.drop_last();
    if i < init.len() {
        assert(init[i] == targets[i]);
        assert forall|j: int| 0 <= j < i implies (#[trigger] init[j]).slot != slot by {
            assert(init[j] == targets[j]);
        }
        lemma_configured_name(init, slot, i);
    } else {
        assert forall|j: int| 0 <= j < init.len() implies (#[trigger] init[j]).slot != slot by {
            assert(init[j] == targets[j]);
        }
        lemma_no_configured_name(init, slot);
    }
}

proof fn lemma_no_configured_name(targets: Seq<TargetView>, slot: u8)
    requires
        forall|j: int| 0 <= j < targets.len() ==> (#[trigger] targets[j]).slot != slot,
    ensures
        configured_name(targets, slot) is None,
    decreases targets.len(),
{
    if targets.len() > 0 {
        let init = targets.drop_last();
        assert forall|j: int| 0 <= j < init.len() implies (#[trigger] init[j]).slot != slot by {
            assert(init[j] == targets[j]);
        }
        lemma_no_configured_name(init, slot);
    }
}

// ---------------------------------------------------------------------------
// State
// ---------------------------------------------------------------------------

#[derive(Debug)]
struct PairingWindow {
    slot: u8,
    deadline: Instant,
    /// Devices already paired when the window opened.
    pre_paired: HashSet<u64>,
    /// A device has been bound; the hub is no longer visible but stays
    /// pairable until `deadline` so the bond (link-key exchange) that may
    /// still be in flight on that connection completes with bonding.
    bound: bool,
}

/// The state of an open pairing window.
#[verifier::ext_equal]
pub struct WindowView {
    pub slot: u8,
    pub deadline: Instant,
    pub pre_paired: Set<u64>,
    pub bound: bool,
}

impl View for PairingWindow {
    type V = WindowView;

    closed spec fn view(&self) -> WindowView {
        WindowView {
            slot: self.slot,
            deadline: self.deadline,
            pre_paired: self.pre_paired@,
            bound: self.bound,
        }
    }
}

/// The active slot's host between connections (single-connection mode):
/// frames for it are held here until it subscribes to their report.
#[derive(Debug)]
struct Pending {
    addr: Address,
    buffer: ReplayBuffer,
    since: Instant,
}

/// What is held for a host that is on its way back.
#[verifier::ext_equal]
pub struct PendingView {
    pub addr: Address,
    pub buffer: ReplayView,
    pub since: Instant,
}

impl View for Pending {
    type V = PendingView;

    closed spec fn view(&self) -> PendingView {
        PendingView { addr: self.addr, buffer: self.buffer@, since: self.since }
    }
}

#[derive(Debug)]
pub struct Manager {
    kind: TransportKind,
    settings: Settings,
    bindings: Bindings,
    /// Mirror of the router's slot.
    active_slot: u8,
    pairing: Option<PairingWindow>,
    /// The LE advertisement (LE mode only) and whether it is discoverable:
    /// connectable so bonded hosts can reconnect, discoverable only while a
    /// pairing window is open, and dropped while nobody is expected.
    adv: Option<bool>,
    /// See `Pending`. `None` when the active host is attached, the active
    /// slot is local, or the mode keeps every host connected.
    pending: Option<Pending>,
    /// Bound hosts seen connected without an input-report session, and since
    /// when (see `poll_stuck_hosts`).
    stuck: HashMap<u64, Instant>,
    /// Stuck hosts we disconnected so they reconnect fresh, and when. A host
    /// stuck again within `KICK_MEMORY_SECS` of its kick escalates to a GATT
    /// re-registration; forgotten once the host subscribes.
    kicked: HashMap<u64, Instant>,
    /// Hosts already served by a re-registration during their current
    /// connection; forgotten when they disconnect. Bounds the churn to one
    /// re-registration per host connection.
    helped: HashSet<u64>,
    last_reregister: Option<Instant>,
    /// Bound hosts told to disconnect because their slot is not active, and
    /// when — so a host that lingers through bluetoothd's disconnect timer
    /// is not told again every tick.
    evicted: HashMap<u64, Instant>,
}

/// The state of a [`Manager`].
#[verifier::ext_equal]
pub struct ManagerView {
    pub kind: TransportKind,
    pub connections: Connections,
    pub targets: Seq<TargetView>,
    pub bindings: Map<u8, BindingView>,
    pub active_slot: u8,
    pub pairing: Option<WindowView>,
    pub adv: Option<bool>,
    pub pending: Option<PendingView>,
    pub stuck: Map<u64, Instant>,
    pub kicked: Map<u64, Instant>,
    pub helped: Set<u64>,
    pub last_reregister: Option<Instant>,
    pub evicted: Map<u64, Instant>,
}

impl View for Manager {
    type V = ManagerView;

    closed spec fn view(&self) -> ManagerView {
        ManagerView {
            kind: self.kind,
            connections: self.settings.connections,
            targets: config::target_views(self.settings.targets@),
            bindings: state::binding_views(self.bindings@),
            active_slot: self.active_slot,
            pairing: match self.pairing {
                Some(w) => Some(w@),
                None => None,
            },
            adv: self.adv,
            pending: match self.pending {
                Some(p) => Some(p@),
                None => None,
            },
            stuck: self.stuck@,
            kicked: self.kicked@,
            helped: self.helped@,
            last_reregister: self.last_reregister,
            evicted: self.evicted@,
        }
    }
}

impl ManagerView {
    /// A window that still looks for a device is for a slot nobody is bound
    /// to; frames are held only where one host is connected at a time.
    pub open spec fn wf(self) -> bool {
        &&& self.pairing matches Some(w) ==> w.bound || !self.bindings.contains_key(w.slot)
        &&& self.pending matches Some(p) ==> p.buffer.wf() && self.single()
    }

    /// LE with one host at a time.
    pub open spec fn single(self) -> bool {
        self.kind == TransportKind::Le && self.connections == Connections::Single
    }

    /// The host frames go to right now; none while the local slot is active
    /// or the active slot is unbound.
    pub open spec fn active_host(self) -> Option<Address> {
        if self.active_slot == LOCAL_SLOT {
            None
        } else {
            host_at(self.bindings, self.active_slot)
        }
    }

    /// The lowest slot a host is bound to.
    pub open spec fn slot_of(self, addr: Address) -> Option<u8> {
        first_slot(self.bindings, addr, 256)
    }

    /// Whether this slot's host is one we keep connected: every bound host,
    /// or in single mode only the active one.
    pub open spec fn serves(self, slot: u8) -> bool {
        !self.single() || slot == self.active_slot
    }

    /// A pairing window that still looks for a device.
    pub open spec fn looking(self) -> bool {
        self.pairing matches Some(w) && !w.bound
    }
}

/// Whether a host has enabled every input report.
pub open spec fn fully_subscribed(t: TransportView, peer: Address) -> bool {
    &&& t.subscribed(peer, REPORT_ID_KEYBOARD)
    &&& t.subscribed(peer, REPORT_ID_MOUSE)
    &&& t.subscribed(peer, REPORT_ID_CONSUMER)
}

fn has_every_report(transport: &Transport, peer: Address) -> (r: bool)
    ensures
        r == fully_subscribed(transport@, peer),
{
    transport.is_subscribed(peer, REPORT_ID_KEYBOARD) && transport.is_subscribed(
        peer,
        REPORT_ID_MOUSE,
    ) && transport.is_subscribed(peer, REPORT_ID_CONSUMER)
}

// ---------------------------------------------------------------------------
// Advertising
// ---------------------------------------------------------------------------

/// Whether somebody is expected to connect.
pub open spec fn expects_host(
    mode: Connections,
    active_host: Option<Address>,
    bound: Seq<Address>,
    connected: Set<u64>,
) -> bool {
    match mode {
        Connections::All => exists|i: int|
            0 <= i < bound.len() && !connected.contains((#[trigger] bound[i]).raw),
        Connections::Single => active_host matches Some(a) && !connected.contains(a.raw),
    }
}

/// Whether to run the connectable advertisement: it is what lets a bonded
/// host reconnect, and it costs radio time while it runs. With every host
/// kept connected, advertise while any bound one is away; with one host at a
/// time, only while the active slot's host is away (never for the local slot
/// or an unbound one — nobody is expected). `connected` is bluetoothd's view
/// (`Device1.Connected`): the link is what matters here, the input-report
/// subscription that follows is the stuck-host logic's business.
pub fn wants_advertising(
    mode: Connections,
    active_host: Option<Address>,
    bound: &[Address],
    connected: &HashSet<u64>,
) -> (r: bool)
    ensures
        r == expects_host(mode, active_host, bound@, connected@),
{
    match mode {
        Connections::All => {
            let mut i: usize = 0;
            while i < bound.len()
                invariant
                    i <= bound@.len(),
                    mode == Connections::All,
                    forall|j: int| 0 <= j < i ==> connected@.contains((#[trigger] bound@[j]).raw),
                decreases bound@.len() - i,
            {
                if !connected.contains(&bound[i].raw) {
                    assert(!connected@.contains(bound@[i as int].raw));
                    return true;
                }
                i = i + 1;
            }
            false
        },
        Connections::Single => match active_host {
            Some(a) => !connected.contains(&a.raw),
            None => false,
        },
    }
}

/// What to do about the advertisement.
#[derive(Debug, Clone, Copy, PartialEq, Eq, Structural)]
pub enum AdvChange {
    Keep,
    /// Register a connectable, not discoverable one (in place of the one that
    /// is up, if any).
    Start,
    /// Expected hosts are connected: take it down.
    Stop,
}

/// How the hub is made visible, or invisible again.
#[derive(Debug, Clone, Copy, PartialEq, Eq, Structural)]
pub enum Visibility {
    /// Classic: the adapter's discoverable flag (inquiry scan).
    Discoverable(bool),
    /// LE: the discoverable flag of our advertisement — not the adapter
    /// property, which on a dual-mode controller would also open BR/EDR
    /// inquiry scan.
    Advertise,
    /// LE: back to whatever the mode wants (see `apply_advertising`).
    Follow,
}

impl ManagerView {
    pub open spec fn adv_change(self, connected: Set<u64>) -> AdvChange {
        if self.kind != TransportKind::Le || self.looking() {
            AdvChange::Keep
        } else {
            let want = expects_host(
                self.connections,
                self.active_host(),
                bound_below(self.bindings, 256),
                connected,
            );
            match (want, self.adv) {
                (true, None) => AdvChange::Start,
                // A settled pairing window: stay connectable, stop being seen.
                (true, Some(discoverable)) => if discoverable {
                    AdvChange::Start
                } else {
                    AdvChange::Keep
                },
                (false, Some(_)) => AdvChange::Stop,
                (false, None) => AdvChange::Keep,
            }
        }
    }
}

impl Manager {
    /// Nothing open, held or noted.
    pub fn new(
        settings: Settings,
        kind: TransportKind,
        bindings: Bindings,
        active_slot: u8,
    ) -> (r: Self)
        ensures
            r@ == (ManagerView {
                kind,
                connections: settings.connections,
                targets: config::target_views(settings.targets@),
                bindings: state::binding_views(bindings@),
                active_slot,
                pairing: None,
                adv: None,
                pending: None,
                stuck: Map::empty(),
                kicked: Map::empty(),
                helped: Set::empty(),
                last_reregister: None,
                evicted: Map::empty(),
            }),
            r@.wf(),
    {
        Manager {
            kind,
            settings,
            bindings,
            active_slot,
            pairing: None,
            adv: None,
            pending: None,
            stuck: HashMap::new(),
            kicked: HashMap::new(),
            helped: HashSet::new(),
            last_reregister: None,
            evicted: HashMap::new(),
        }
    }

    /// The bindings, to publish and to save.
    pub fn bindings(&self) -> (r: &Bindings)
        ensures
            state::binding_views(r@) == self@.bindings,
    {
        &self.bindings
    }

    pub fn active_slot(&self) -> (r: u8)
        ensures
            r == self@.active_slot,
    {
        self.active_slot
    }

    fn host(&self, slot: u8) -> (r: Option<Address>)
        ensures
            r == host_at(self@.bindings, slot),
    {
        match self.bindings.get(&slot) {
            Some(b) => Some(b.addr),
            None => None,
        }
    }

    /// LE with `connections = "single"`: one host at a time.
    pub fn single(&self) -> (r: bool)
        ensures
            r == self@.single(),
    {
        self.kind == TransportKind::Le && self.settings.connections == Connections::Single
    }

    /// The host frames go to right now; none while the local slot is active
    /// or the active slot is unbound.
    pub fn active_host(&self) -> (r: Option<Address>)
        ensures
            r == self@.active_host(),
    {
        if self.active_slot == LOCAL_SLOT {
            None
        } else {
            self.host(self.active_slot)
        }
    }

    /// The host to dial for a slot; none for the local slot.
    pub fn dial_target(&self, active_slot: u8) -> (r: Option<Address>)
        ensures
            r == if active_slot == LOCAL_SLOT {
                None::<Address>
            } else {
                host_at(self@.bindings, active_slot)
            },
    {
        if active_slot == LOCAL_SLOT {
            None
        } else {
            self.host(active_slot)
        }
    }

    /// The lowest slot a host is bound to.
    pub fn slot_of(&self, addr: Address) -> (r: Option<u8>)
        ensures
            r == self@.slot_of(addr),
            r is Some <==> is_bound(self@.bindings, addr),
    {
        let mut n: u16 = 0;
        while n < 256
            invariant
                n <= 256,
                first_slot(self@.bindings, addr, n as nat) is None,
            decreases 256 - n,
        {
            let slot: u8 = n as u8;
            if let Some(a) = self.host(slot) {
                if a == addr {
                    proof {
                        assert(first_slot(self@.bindings, addr, (n + 1) as nat) == Some(slot));
                        lemma_found(self@.bindings, addr, (n + 1) as nat, 256);
                        assert(host_at(self@.bindings, slot) == Some(addr));
                    }
                    return Some(slot);
                }
            }
            assert(first_slot(self@.bindings, addr, (n + 1) as nat) is None);
            n = n + 1;
        }
        proof {
            lemma_first_slot(self@.bindings, addr, 256);
        }
        None
    }

    /// Whether this slot's host is one we keep connected: every bound host,
    /// or in single mode only the active one.
    pub fn serves(&self, slot: u8) -> (r: bool)
        ensures
            r == self@.serves(slot),
    {
        !self.single() || slot == self.active_slot
    }

    /// The bound hosts, by slot: those whose connections are asked about.
    pub fn bound_hosts(&self) -> (r: Vec<Address>)
        ensures
            r@ == bound_below(self@.bindings, 256),
    {
        let mut out: Vec<Address> = Vec::new();
        let mut n: u16 = 0;
        assert(out@ =~= Seq::empty());
        while n < 256
            invariant
                n <= 256,
                out@ == bound_below(self@.bindings, n as nat),
            decreases 256 - n,
        {
            if let Some(addr) = self.host(n as u8) {
                out.push(addr);
            }
            n = n + 1;
        }
        out
    }

    /// How to make the hub visible to new hosts (pairing window) or not.
    pub fn set_visible(&self, on: bool) -> (r: Visibility)
        ensures
            r == (if self@.kind != TransportKind::Le {
                Visibility::Discoverable(on)
            } else if on {
                Visibility::Advertise
            } else {
                Visibility::Follow
            }),
    {
        match self.kind {
            TransportKind::Log => Visibility::Discoverable(on),
            TransportKind::L2cap => Visibility::Discoverable(on),
            TransportKind::Le => if on {
                Visibility::Advertise
            } else {
                Visibility::Follow
            },
        }
    }

    /// Bring the advertisement in line with who is expected to connect (see
    /// `wants_advertising`), unless an unsettled pairing window owns it: that
    /// one is discoverable. Called from the 1 s tick, on a slot switch (so
    /// the target's reconnect starts at once) and when a window settles or
    /// closes.
    pub fn apply_advertising(&mut self, connected: &HashSet<u64>) -> (r: AdvChange)
        ensures
            r == old(self)@.adv_change(connected@),
            final(self)@ == (if r == AdvChange::Stop {
                ManagerView { adv: None, ..old(self)@ }
            } else {
                old(self)@
            }),
    {
        if self.kind != TransportKind::Le {
            return AdvChange::Keep;
        }
        if let Some(w) = &self.pairing {
            if !w.bound {
                return AdvChange::Keep;
            }
        }
        let bound = self.bound_hosts();
        let want = wants_advertising(
            self.settings.connections,
            self.active_host(),
            bound.as_slice(),
            connected,
        );
        match (want, self.adv) {
            (true, None) => AdvChange::Start,
            (true, Some(discoverable)) => if discoverable {
                AdvChange::Start
            } else {
                AdvChange::Keep
            },
            (false, Some(_)) => {
                self.adv = None;
                AdvChange::Stop
            },
            (false, None) => AdvChange::Keep,
        }
    }

    /// The advertisement is about to be registered anew: the one that is up
    /// goes first. Returns whether there was one, which takes a moment to go.
    pub fn replace_advertising(&mut self) -> (r: bool)
        ensures
            r == (old(self)@.adv is Some),
            final(self)@ == (ManagerView { adv: None, ..old(self)@ }),
    {
        let was_up = self.adv.is_some();
        self.adv = None;
        was_up
    }

    /// An advertisement was registered.
    pub fn set_advertising(&mut self, discoverable: bool)
        ensures
            final(self)@ == (ManagerView { adv: Some(discoverable), ..old(self)@ }),
    {
        self.adv = Some(discoverable);
    }
}

proof fn lemma_found(m: Map<u8, BindingView>, addr: Address, n: nat, all: nat)
    requires
        n <= all,
        first_slot(m, addr, n) is Some,
    ensures
        first_slot(m, addr, all) == first_slot(m, addr, n),
    decreases all,
{
    if n < all {
        lemma_found(m, addr, n, (all - 1) as nat);
    }
}

// ---------------------------------------------------------------------------
// Pairing windows
// ---------------------------------------------------------------------------

/// What a command comes to.
#[derive(Debug, Clone, Copy, PartialEq, Eq, Structural)]
pub enum Plan {
    Nothing,
    /// Open a pairing window for the slot.
    Open { slot: u8 },
    /// The slot was unbound: disconnect the host and remove its pairing, so
    /// no stale link key survives; publish and save the bindings; open a
    /// window. The *client* keeps its own key, so a clean re-pair also needs
    /// the device forgotten there.
    Unpair { slot: u8, addr: Address, from_config: bool },
    /// The slot was unbound from a host whose pairing is gone already:
    /// publish and save the bindings; open a window.
    Reopen { slot: u8, addr: Address, from_config: bool },
}

/// What the once-a-second look at the window comes to.
#[derive(Debug, Clone, Copy, PartialEq, Eq, Structural)]
pub enum WindowPoll {
    Idle,
    /// Time is up: close the window.
    Expired,
    /// Look for a newly paired device.
    Look,
}

/// What becomes of a host that connected.
#[derive(Debug, Clone, Copy, PartialEq, Eq, Structural)]
pub enum Arrival {
    Keep,
    /// It was dropped.
    Dropped,
    /// A new host during a pairing window: bind it if it is bonded, refuse it
    /// otherwise.
    AskBond { slot: u8 },
}

impl ManagerView {
    pub open spec fn without_binding(self, slot: u8) -> ManagerView {
        ManagerView { bindings: self.bindings.remove(slot), ..self }
    }

    /// What opening a window for a slot comes to.
    pub open spec fn open_plan(self, slot: u8) -> Plan {
        if self.bindings.contains_key(slot) {
            Plan::Nothing
        } else {
            Plan::Open { slot }
        }
    }

    /// What a forced re-pair comes to.
    pub open spec fn repair_plan(self, slot: u8) -> (ManagerView, Plan) {
        if self.bindings.contains_key(slot) {
            let b = self.bindings[slot];
            (
                self.without_binding(slot),
                Plan::Unpair { slot, addr: b.addr, from_config: b.from_config },
            )
        } else if self.pairing matches Some(w) && w.slot == slot {
            (self, Plan::Nothing)
        } else {
            (self, Plan::Open { slot })
        }
    }

    /// What a host whose pairing is gone comes to.
    pub open spec fn heal_plan(self, slot: u8) -> (ManagerView, Plan) {
        if self.bindings.contains_key(slot) {
            let b = self.bindings[slot];
            (
                self.without_binding(slot),
                Plan::Reopen { slot, addr: b.addr, from_config: b.from_config },
            )
        } else {
            (self, Plan::Nothing)
        }
    }

    /// With a window open for a slot.
    pub open spec fn opened(self, slot: u8, pre_paired: Set<u64>, now: Instant) -> ManagerView {
        ManagerView {
            pairing: Some(
                WindowView {
                    slot,
                    deadline: now.plus(Duration::of_secs(PAIRING_WINDOW_SECS as int)),
                    pre_paired,
                    bound: false,
                },
            ),
            ..self
        }
    }

    /// What a look at the window comes to.
    pub open spec fn window_poll(self, now: Instant) -> WindowPoll {
        match self.pairing {
            None => WindowPoll::Idle,
            Some(w) => if w.deadline.reached(now) {
                WindowPoll::Expired
            } else if w.bound {
                WindowPoll::Idle
            } else {
                WindowPoll::Look
            },
        }
    }

    /// A device that an open window may bind: not paired before it opened,
    /// and not bound to any slot.
    pub open spec fn candidate(self, addr: Address) -> bool {
        &&& !(self.pairing matches Some(w) && w.pre_paired.contains(addr.raw))
        &&& !is_bound(self.bindings, addr)
    }

    /// After a device was bound to the slot of the open window.
    pub open spec fn after_bind(self, addr: Address, device_name: Seq<char>) -> ManagerView {
        match self.pairing {
            Some(w) => ManagerView {
                bindings: self.bindings.insert(
                    w.slot,
                    BindingView {
                        addr,
                        name: match configured_name(self.targets, w.slot) {
                            Some(name) => name,
                            None => device_name,
                        },
                        from_config: false,
                    },
                ),
                pairing: Some(WindowView { bound: true, ..w }),
                ..self
            },
            None => self,
        }
    }

    /// What becomes of a host that connected.
    pub open spec fn arrival(self, peer: Address) -> Arrival {
        match self.slot_of(peer) {
            Some(slot) => if !self.serves(slot) && self.pairing is None {
                Arrival::Dropped
            } else {
                Arrival::Keep
            },
            None => match self.pairing {
                None => Arrival::Dropped,
                Some(w) => if w.bound {
                    Arrival::Dropped
                } else {
                    Arrival::AskBond { slot: w.slot }
                },
            },
        }
    }
}

impl Manager {
    /// Carry out a command of the router, as far as it goes without the radio.
    pub fn handle_cmd(&mut self, cmd: BtCmd) -> (r: Plan)
        requires
            old(self)@.wf(),
        ensures
            (final(self)@, r) == match cmd {
                BtCmd::OpenPairingWindow { slot } => (old(self)@, old(self)@.open_plan(slot)),
                BtCmd::RepairSlot { slot } => old(self)@.repair_plan(slot),
            },
            final(self)@.wf(),
    {
        match cmd {
            BtCmd::OpenPairingWindow { slot } => {
                if self.bindings.contains_key(&slot) {
                    Plan::Nothing
                } else {
                    Plan::Open { slot }
                }
            },
            BtCmd::RepairSlot { slot } => self.repair_slot(slot),
        }
    }

    /// Forced re-pair (long press on the slot's combo): unbind the slot and
    /// open a pairing window. The plain press already opened a window for an
    /// unbound slot; the hold that followed has nothing left to undo.
    pub fn repair_slot(&mut self, slot: u8) -> (r: Plan)
        requires
            old(self)@.wf(),
        ensures
            (final(self)@, r) == old(self)@.repair_plan(slot),
            final(self)@.wf(),
    {
        match self.unbind(slot) {
            Some((addr, from_config)) => Plan::Unpair { slot, addr, from_config },
            None => {
                let open = match &self.pairing {
                    Some(w) => w.slot == slot,
                    None => false,
                };
                if open {
                    Plan::Nothing
                } else {
                    Plan::Open { slot }
                }
            },
        }
    }

    /// The active slot's device is no longer paired: drop the dead binding and
    /// go straight back into pairing mode so the user can re-pair without
    /// touching the state file.
    pub fn heal_stale_binding(&mut self, slot: u8) -> (r: Plan)
        requires
            old(self)@.wf(),
        ensures
            (final(self)@, r) == old(self)@.heal_plan(slot),
            final(self)@.wf(),
    {
        match self.unbind(slot) {
            Some((addr, from_config)) => Plan::Reopen { slot, addr, from_config },
            None => Plan::Nothing,
        }
    }

    fn unbind(&mut self, slot: u8) -> (r: Option<(Address, bool)>)
        requires
            old(self)@.wf(),
        ensures
            final(self)@.wf(),
            match r {
                Some((addr, from_config)) => {
                    &&& old(self)@.bindings.contains_key(slot)
                    &&& old(self)@.bindings[slot].addr == addr
                    &&& old(self)@.bindings[slot].from_config == from_config
                    &&& final(self)@ == old(self)@.without_binding(slot)
                },
                None => !old(self)@.bindings.contains_key(slot) && final(self)@ == old(self)@,
            },
    {
        let ghost before = self@;
        let ghost raw = self.bindings@;
        match self.bindings.remove(&slot) {
            Some(b) => {
                assert(self.bindings@ =~= raw.remove(slot));
                assert(self@.bindings =~= before.bindings.remove(slot));
                Some((b.addr, b.from_config))
            },
            None => {
                assert(self.bindings@ =~= raw);
                None
            },
        }
    }

    /// Whether a window may open for the slot: bound slots ignore the request.
    pub fn may_open(&self, slot: u8) -> (r: bool)
        ensures
            r == !self@.bindings.contains_key(slot),
    {
        !self.bindings.contains_key(&slot)
    }

    /// The adapter is pairable and the hub visible: the window is open, in
    /// place of the one that was. `pre_paired` are the devices already paired.
    pub fn open_window(&mut self, slot: u8, pre_paired: &[Address], now: Instant)
        requires
            old(self)@.wf(),
            !old(self)@.bindings.contains_key(slot),
            now.in_range(),
        ensures
            final(self)@ == old(self)@.opened(slot, raw_set(pre_paired@), now),
            final(self)@.wf(),
    {
        let mut known: HashSet<u64> = HashSet::new();
        let mut i: usize = 0;
        assert(known@ =~= raw_set(pre_paired@.take(0)));
        while i < pre_paired.len()
            invariant
                i <= pre_paired@.len(),
                known@ == raw_set(pre_paired@.take(i as int)),
            decreases pre_paired@.len() - i,
        {
            known.insert(pre_paired[i].raw);
            proof {
                lemma_raw_set_take(pre_paired@, i as int);
                assert(known@ =~= raw_set(pre_paired@.take(i + 1)));
            }
            i = i + 1;
        }
        assert(pre_paired@.take(i as int) =~= pre_paired@);
        self.pairing = Some(
            PairingWindow {
                slot,
                deadline: now.after(Duration::from_secs(PAIRING_WINDOW_SECS)),
                pre_paired: known,
                bound: false,
            },
        );
    }

    /// Close the window, if one is open: the adapter is to be no longer
    /// pairable. `Some(true)` where visibility is to be turned off too; a
    /// settled window already did.
    pub fn close_window(&mut self) -> (r: Option<bool>)
        requires
            old(self)@.wf(),
        ensures
            r == match old(self)@.pairing {
                Some(w) => Some(!w.bound),
                None => None,
            },
            final(self)@ == (ManagerView { pairing: None, ..old(self)@ }),
            final(self)@.wf(),
    {
        let r = match &self.pairing {
            Some(w) => Some(!w.bound),
            None => None,
        };
        self.pairing = None;
        r
    }

    /// Once per second: time the window out, or look for the first newly
    /// paired device to bind.
    pub fn poll_window(&self, now: Instant) -> (r: WindowPoll)
        ensures
            r == self@.window_poll(now),
    {
        match &self.pairing {
            None => WindowPoll::Idle,
            Some(w) => if w.deadline.is_reached(now) {
                WindowPoll::Expired
            } else if w.bound {
                WindowPoll::Idle
            } else {
                WindowPoll::Look
            },
        }
    }

    /// Whether a device is one that the open window may bind, once it is
    /// paired and bonded.
    pub fn is_candidate(&self, addr: Address) -> (r: bool)
        ensures
            r == self@.candidate(addr),
    {
        let seen = match &self.pairing {
            Some(w) => w.pre_paired.contains(&addr.raw),
            None => false,
        };
        !seen && self.slot_of(addr).is_none()
    }

    /// A device was bound to the window's slot, under the name a mac-less
    /// config target gives the slot, otherwise under its own. The window is
    /// settled: the hub is to be no longer visible, but stays pairable for the
    /// rest of the window.
    pub fn bind(&mut self, addr: Address, device_name: String)
        requires
            old(self)@.wf(),
            old(self)@.looking(),
        ensures
            final(self)@ == old(self)@.after_bind(addr, device_name@),
            final(self)@.wf(),
    {
        let ghost before = self@;
        if let Some(w) = &mut self.pairing {
            let slot: u8 = w.slot;
            w.bound = true;
            let ghost views = config::target_views(self.settings.targets@);
            let name = match self.settings.target_for_slot(slot) {
                Some(t) => {
                    proof {
                        let list = self.settings.targets@;
                        let i = choose|i: int|
                            0 <= i < list.len() && #[trigger] list[i] == *t && forall|j: int|
                                0 <= j < i ==> (#[trigger] list[j]).slot != slot;
                        assert(views[i] == t@);
                        assert forall|j: int| 0 <= j < i implies (#[trigger] views[j]).slot
                            != slot by {
                            assert(views[j] == list[j]@);
                        }
                        lemma_configured_name(views, slot, i);
                    }
                    t.name.clone()
                },
                None => {
                    proof {
                        let list = self.settings.targets@;
                        assert forall|j: int| 0 <= j < views.len() implies (#[trigger] views[j]).slot
                            != slot by {
                            assert(views[j] == list[j]@);
                        }
                        lemma_no_configured_name(views, slot);
                    }
                    device_name
                },
            };
            let binding = Binding { addr, name, from_config: false };
            let ghost view = binding@;
            let ghost raw = self.bindings@;
            self.bindings.insert(slot, binding);
            assert(self.bindings@ =~= raw.insert(slot, binding));
            assert(self@.bindings =~= before.bindings.insert(slot, view));
        }
        assert(self@ =~= before.after_bind(addr, device_name@));
    }

    /// A host connected. Known (bound) hosts are kept attached — in single
    /// mode only the active slot's, except during a pairing window, when one
    /// that shows up anyway is most likely the host that was just bound to
    /// another slot and is still finishing its bond. During a window that
    /// still looks, a new host is asked about: bonded, it is the device the
    /// user meant; a host that only "connected" (Just-Works, no stored key)
    /// would reject our HID traffic. Anybody else is dropped.
    pub fn on_incoming_peer(
        &mut self,
        transport: &mut Transport,
        peer: Address,
        now: Instant,
    ) -> (r: Arrival)
        requires
            old(self)@.wf(),
            old(transport)@.wf(),
        ensures
            r == old(self)@.arrival(peer),
            final(transport)@ == (if r == Arrival::Dropped {
                old(transport)@.without(peer)
            } else {
                old(transport)@
            }),
            final(self)@ == (if r == Arrival::Dropped && is_bound(old(self)@.bindings, peer) {
                ManagerView { evicted: old(self)@.evicted.insert(peer.raw, now), ..old(self)@ }
            } else {
                old(self)@
            }),
            final(self)@.wf(),
            final(transport)@.wf(),
    {
        let ghost before = self@;
        match self.slot_of(peer) {
            Some(slot) => {
                if !self.serves(slot) && self.pairing.is_none() {
                    transport.drop_peer(peer);
                    self.evicted.insert(peer.raw, now);
                    assert(self@ =~= ManagerView {
                        evicted: before.evicted.insert(peer.raw, now),
                        ..before
                    });
                    return Arrival::Dropped;
                }
                Arrival::Keep
            },
            None => {
                match &self.pairing {
                    None => {
                        transport.drop_peer(peer);
                        Arrival::Dropped
                    },
                    Some(w) => {
                        if w.bound {
                            transport.drop_peer(peer);
                            Arrival::Dropped
                        } else {
                            Arrival::AskBond { slot: w.slot }
                        }
                    },
                }
            },
        }
    }
}

/// The addresses of a list.
pub open spec fn raw_set(list: Seq<Address>) -> Set<u64> {
    Set::new(|a: u64| exists|i: int| 0 <= i < list.len() && (#[trigger] list[i]).raw == a)
}

// ---------------------------------------------------------------------------
// Slot switches and frames
// ---------------------------------------------------------------------------

/// What leaving a slot asks for.
#[derive(Debug, Clone, Copy, PartialEq, Eq, Structural)]
pub struct SlotChange {
    /// The host of the slot being left.
    pub left: Option<Address>,
    /// One host at a time: route what the router already queued — its
    /// releases for the host being left went out before the slot changed, so
    /// they still find that host subscribed — then call `finish_slot_change`.
    pub drain: bool,
}

/// Where a frame goes.
#[derive(Debug, Clone, Copy, PartialEq, Eq, Structural)]
pub enum Route {
    /// Its slot is unbound: dropped.
    Unbound,
    /// Its host is on its way back and has not enabled this report yet.
    Held(Push),
    Send(Address),
}

/// Frames given up on.
#[derive(Debug, Clone, Copy, PartialEq, Eq, Structural)]
pub struct GivenUp {
    pub addr: Address,
    pub held: usize,
    pub dropped_motion: u32,
    pub evicted: u32,
}

impl ManagerView {
    /// Holding frames for the active host from now on, if it needs that.
    pub open spec fn armed(self, t: TransportView, now: Instant) -> ManagerView {
        let pending = match self.active_host() {
            Some(addr) => if self.single() && !fully_subscribed(t, addr) {
                Some(PendingView { addr, buffer: replay::nothing_held(), since: now })
            } else {
                None
            },
            None => None,
        };
        ManagerView { pending, ..self }
    }

    /// Whether a frame for `peer` is to be held.
    pub open spec fn holds(self, t: TransportView, peer: Address, id: u8) -> bool {
        self.pending matches Some(p) && p.addr == peer && !t.subscribed(peer, id)
    }

    /// Whether a frame, if it is to be held, can be counted.
    pub open spec fn countable(self, t: TransportView, slot: u8, frame: HidFrame) -> bool {
        host_at(self.bindings, slot) matches Some(peer) && self.holds(t, peer, frame@[0])
            ==> self.pending->0.buffer.countable(frame)
    }

    /// What becomes of a frame.
    pub open spec fn routed(self, t: TransportView, slot: u8, frame: HidFrame) -> (
        ManagerView,
        Route,
    ) {
        match host_at(self.bindings, slot) {
            None => (self, Route::Unbound),
            Some(peer) => match self.pending {
                Some(p) => if self.holds(t, peer, frame@[0]) {
                    let (buffer, push) = p.buffer.pushed(frame);
                    (
                        ManagerView { pending: Some(PendingView { buffer, ..p }), ..self },
                        Route::Held(push),
                    )
                } else {
                    (self, Route::Send(peer))
                },
                None => (self, Route::Send(peer)),
            },
        }
    }

    /// Without any per-connection note about a host.
    pub open spec fn forgotten(self, addr: Address) -> ManagerView {
        ManagerView {
            stuck: self.stuck.remove(addr.raw),
            kicked: self.kicked.remove(addr.raw),
            helped: self.helped.remove(addr.raw),
            evicted: self.evicted.remove(addr.raw),
            ..self
        }
    }

    /// The host to disconnect after a switch away from `left`.
    pub open spec fn leaves(self, left: Option<Address>) -> Option<Address> {
        if left != self.active_host() {
            left
        } else {
            None
        }
    }
}

impl Manager {
    /// Hold frames for the active host until it subscribes (single mode
    /// only, and only if it is not attached already). Called after a slot
    /// switch and at startup.
    pub fn arm_pending(&mut self, transport: &Transport, now: Instant)
        requires
            old(self)@.wf(),
        ensures
            final(self)@ == old(self)@.armed(transport@, now),
            final(self)@.wf(),
    {
        self.pending = None;
        if !self.single() {
            return;
        }
        if let Some(addr) = self.active_host() {
            if !has_every_report(transport, addr) {
                self.pending = Some(Pending { addr, buffer: ReplayBuffer::new(), since: now });
            }
        }
    }

    /// The router moved to another slot; the state is to be saved. Classic and
    /// "all" mode are done with that (the classic loop dials from the new
    /// slot).
    pub fn on_slot_change(&mut self, slot: u8) -> (r: SlotChange)
        requires
            old(self)@.wf(),
        ensures
            r == (SlotChange { left: old(self)@.active_host(), drain: old(self)@.single() }),
            final(self)@ == (ManagerView { active_slot: slot, ..old(self)@ }),
            final(self)@.wf(),
    {
        let left = self.active_host();
        self.active_slot = slot;
        SlotChange { left, drain: self.single() }
    }

    /// Single mode, the queue is drained: drop what is still held for the
    /// previous host and hold frames for the new one until it subscribes.
    /// Advertising is due next, so the new host's reconnect starts at once,
    /// then `leave_host`.
    pub fn finish_slot_change(&mut self, transport: &Transport, now: Instant)
        requires
            old(self)@.wf(),
        ensures
            final(self)@ == old(self)@.armed(transport@, now),
            final(self)@.wf(),
    {
        self.arm_pending(transport, now);
    }

    /// Single mode, end of a switch: disconnect the host that was left, unless
    /// it is the new one too. bluetoothd defers the actual link drop by up to
    /// 2 s, so queued releases go out first; the eviction sweep need not tell
    /// it again.
    pub fn leave_host(
        &mut self,
        transport: &mut Transport,
        left: Option<Address>,
        now: Instant,
    ) -> (r: Option<Address>)
        requires
            old(self)@.wf(),
            old(transport)@.wf(),
        ensures
            r == old(self)@.leaves(left),
            match r {
                Some(addr) => {
                    let cleared = old(self)@.forgotten(addr);
                    &&& final(transport)@ == old(transport)@.without(addr)
                    &&& final(self)@ == (ManagerView {
                        evicted: cleared.evicted.insert(addr.raw, now),
                        ..cleared
                    })
                },
                None => final(self)@ == old(self)@ && final(transport)@ == old(transport)@,
            },
            final(self)@.wf(),
            final(transport)@.wf(),
    {
        let ghost before = self@;
        match left {
            None => None,
            Some(addr) => {
                let same = match self.active_host() {
                    Some(a) => a == addr,
                    None => false,
                };
                if same {
                    return None;
                }
                transport.drop_peer(addr);
                self.forget_host(addr);
                let ghost cleared = self@;
                self.evicted.insert(addr.raw, now);
                assert(self@ =~= ManagerView {
                    evicted: cleared.evicted.insert(addr.raw, now),
                    ..cleared
                });
                Some(addr)
            },
        }
    }

    /// Drop every per-connection note about a host we just disconnected.
    fn forget_host(&mut self, addr: Address)
        ensures
            final(self)@ == old(self)@.forgotten(addr),
    {
        let ghost before = self@;
        self.stuck.remove(&addr.raw);
        self.kicked.remove(&addr.raw);
        self.helped.remove(&addr.raw);
        self.evicted.remove(&addr.raw);
        assert(self@.stuck =~= before.stuck.remove(addr.raw));
        assert(self@.kicked =~= before.kicked.remove(addr.raw));
        assert(self@.helped =~= before.helped.remove(addr.raw));
        assert(self@.evicted =~= before.evicted.remove(addr.raw));
    }

    /// Whether a frame, if it is to be held, can be counted.
    pub fn can_count(&self, transport: &Transport, slot: u8, frame: &HidFrame) -> (r: bool)
        ensures
            r == self@.countable(transport@, slot, *frame),
    {
        match (self.host(slot), &self.pending) {
            (Some(peer), Some(p)) => if p.addr == peer && !transport.is_subscribed(
                peer,
                frame.report_id(),
            ) {
                p.buffer.can_count(frame)
            } else {
                true
            },
            _ => true,
        }
    }

    /// Whether a frame is ahead of the slot the manager knows of: it is tagged
    /// with a slot the router has already switched to. The switch comes first
    /// then, so the frame is held for the new host instead of being sent to
    /// one that is not subscribed.
    pub fn is_ahead(&self, slot: u8) -> (r: bool)
        ensures
            r == (slot != self@.active_slot),
    {
        slot != self.active_slot
    }

    /// Send a frame to its slot's host, or hold it if that host is the one
    /// we are waiting for and has not enabled this report yet.
    pub fn route_frame(&mut self, transport: &Transport, slot: u8, frame: HidFrame) -> (r: Route)
        requires
            old(self)@.wf(),
            old(self)@.countable(transport@, slot, frame),
        ensures
            (final(self)@, r) == old(self)@.routed(transport@, slot, frame),
            final(self)@.wf(),
    {
        let ghost before = self@;
        match self.host(slot) {
            None => Route::Unbound,
            Some(peer) => {
                if let Some(p) = &mut self.pending {
                    if p.addr == peer && !transport.is_subscribed(peer, frame.report_id()) {
                        let push = p.buffer.push(frame);
                        return Route::Held(push);
                    }
                }
                Route::Send(peer)
            },
        }
    }

    /// A host enabled one of its input reports: if it is the one we are
    /// holding frames for, these are that report's frames, to be sent now,
    /// followed by `finish_replay`. A host that was just dropped as uninvited
    /// gets none.
    pub fn on_subscribed(
        &mut self,
        transport: &Transport,
        peer: Address,
        report_id: u8,
    ) -> (r: Vec<HidFrame>)
        requires
            old(self)@.wf(),
        ensures
            match old(self)@.pending {
                Some(p) => if p.addr == peer && transport@.subscribed(peer, report_id) {
                    &&& r@ == replay::of_report(p.buffer.frames, report_id)
                    &&& final(self)@ == (ManagerView {
                        pending: Some(
                            PendingView {
                                buffer: ReplayView {
                                    frames: replay::of_other_reports(p.buffer.frames, report_id),
                                    ..p.buffer
                                },
                                ..p
                            },
                        ),
                        ..old(self)@
                    })
                } else {
                    r@.len() == 0 && final(self)@ == old(self)@
                },
                None => r@.len() == 0 && final(self)@ == old(self)@,
            },
            final(self)@.wf(),
    {
        if let Some(p) = &mut self.pending {
            if p.addr == peer && transport.is_subscribed(peer, report_id) {
                return p.buffer.take(report_id);
            }
        }
        Vec::new()
    }

    /// The replayed frames went out: once the host has enabled all three
    /// reports, stop holding. Returns whether it is attached now.
    pub fn finish_replay(&mut self, transport: &Transport, peer: Address) -> (r: bool)
        requires
            old(self)@.wf(),
        ensures
            r == (old(self)@.pending matches Some(p) && p.addr == peer && fully_subscribed(
                transport@,
                peer,
            )),
            final(self)@ == (if r {
                ManagerView { pending: None, ..old(self)@ }
            } else {
                old(self)@
            }),
            final(self)@.wf(),
    {
        let attached = match &self.pending {
            Some(p) => p.addr == peer && has_every_report(transport, peer),
            None => false,
        };
        if attached {
            self.pending = None;
        }
        attached
    }

    /// Once a second: give up on held frames once the reconnect has clearly
    /// not happened (the host is off, or out of range).
    pub fn poll_pending(&mut self, now: Instant) -> (r: Option<GivenUp>)
        requires
            old(self)@.wf(),
        ensures
            match old(self)@.pending {
                Some(p) => if within(p.since, now, REPLAY_WINDOW_SECS) {
                    r is None && final(self)@ == old(self)@
                } else {
                    &&& r == Some(
                        GivenUp {
                            addr: p.addr,
                            held: p.buffer.frames.len() as usize,
                            dropped_motion: p.buffer.dropped_motion,
                            evicted: p.buffer.evicted,
                        },
                    )
                    &&& final(self)@ == (ManagerView { pending: None, ..old(self)@ })
                },
                None => r is None && final(self)@ == old(self)@,
            },
            final(self)@.wf(),
    {
        let given_up = match &self.pending {
            Some(p) => if is_within(p.since, now, REPLAY_WINDOW_SECS) {
                None
            } else {
                let (dropped_motion, evicted) = p.buffer.stats();
                Some(GivenUp { addr: p.addr, held: p.buffer.len(), dropped_motion, evicted })
            },
            None => None,
        };
        if given_up.is_some() {
            self.pending = None;
        }
        given_up
    }
}

// ---------------------------------------------------------------------------
// Hosts that should not be there
// ---------------------------------------------------------------------------

impl ManagerView {
    /// A bound host that is connected while its slot is not active, and was
    /// not told to go a moment ago.
    pub open spec fn intrudes(
        self,
        t: TransportView,
        connected: Set<u64>,
        noted: Map<u64, Instant>,
        slot: u8,
    ) -> bool {
        host_at(self.bindings, slot) matches Some(addr) && slot != self.active_slot && (
        connected.contains(addr.raw) || t.connected(addr)) && !noted.contains_key(addr.raw)
    }

    /// The intruders on slots below `n`, by slot.
    pub open spec fn intruders(
        self,
        t: TransportView,
        connected: Set<u64>,
        noted: Map<u64, Instant>,
        n: nat,
    ) -> Seq<Address>
        decreases n,
    {
        if n == 0 {
            Seq::empty()
        } else {
            let before = self.intruders(t, connected, noted, (n - 1) as nat);
            let slot = (n - 1) as u8;
            if self.intrudes(t, connected, noted, slot) {
                before.push(self.bindings[slot].addr)
            } else {
                before
            }
        }
    }

    /// The hosts a sweep tells to go, and the notes before it.
    pub open spec fn swept(self, t: TransportView, connected: Set<u64>, now: Instant) -> Option<
        (Seq<Address>, Map<u64, Instant>),
    > {
        if !self.single() || self.pairing is Some {
            None
        } else {
            let noted = recent(self.evicted, now, EVICT_COOLDOWN_SECS);
            Some((self.intruders(t, connected, noted, 256), noted))
        }
    }
}

/// Without the connections to any of the hosts.
pub open spec fn without_all(t: TransportView, list: Seq<Address>) -> TransportView
    decreases list.len(),
{
    if list.len() == 0 {
        t
    } else {
        without_all(t, list.drop_last()).without(list.last())
    }
}

/// With a note of now about each of the hosts.
pub open spec fn noted_all(
    notes: Map<u64, Instant>,
    list: Seq<Address>,
    now: Instant,
) -> Map<u64, Instant>
    decreases list.len(),
{
    if list.len() == 0 {
        notes
    } else {
        noted_all(notes, list.drop_last(), now).insert(list.last().raw, now)
    }
}

impl Manager {
    /// Single mode, once a second: a bound host whose slot is not active but
    /// which is connected anyway (it woke up and saw our advertisement, or is
    /// left over from before a restart) is told to go — unless a pairing
    /// window is open, which is how a host just bound to another slot looks.
    /// Both notions of connected are checked because bluetoothd's
    /// `Connected` has been seen lagging behind a fast reconnect.
    pub fn poll_uninvited(
        &mut self,
        transport: &mut Transport,
        connected: &HashSet<u64>,
        now: Instant,
    ) -> (r: Vec<Address>)
        requires
            old(self)@.wf(),
            old(transport)@.wf(),
        ensures
            match old(self)@.swept(old(transport)@, connected@, now) {
                Some((list, noted)) => {
                    &&& r@ == list
                    &&& final(transport)@ == without_all(old(transport)@, list)
                    &&& final(self)@ == (ManagerView {
                        evicted: noted_all(noted, list, now),
                        ..old(self)@
                    })
                },
                None => {
                    &&& r@.len() == 0
                    &&& final(transport)@ == old(transport)@
                    &&& final(self)@ == old(self)@
                },
            },
            final(self)@.wf(),
            final(transport)@.wf(),
    {
        let ghost before = self@;
        let ghost t = transport@;
        let mut out: Vec<Address> = Vec::new();
        if !self.single() || self.pairing.is_some() {
            return out;
        }
        retain_recent(&mut self.evicted, now, EVICT_COOLDOWN_SECS);
        let ghost noted = self.evicted@;
        let mut n: u16 = 0;
        assert(out@ =~= Seq::empty());
        while n < 256
            invariant
                n <= 256,
                t == transport@,
                transport@.wf(),
                noted == self.evicted@,
                self@ == (ManagerView { evicted: noted, ..before }),
                out@ == before.intruders(t, connected@, noted, n as nat),
            decreases 256 - n,
        {
            let slot: u8 = n as u8;
            if let Some(addr) = self.host(slot) {
                if slot != self.active_slot && (connected.contains(&addr.raw)
                    || transport.is_peer_connected(addr)) && !self.evicted.contains_key(&addr.raw) {
                    out.push(addr);
                }
            }
            n = n + 1;
        }
        let mut i: usize = 0;
        assert(out@.take(0) =~= Seq::empty());
        while i < out.len()
            invariant
                i <= out@.len(),
                out@ == before.intruders(t, connected@, noted, 256),
                transport@ == without_all(t, out@.take(i as int)),
                transport@.wf(),
                self@ == (ManagerView {
                    evicted: noted_all(noted, out@.take(i as int), now),
                    ..before
                }),
            decreases out@.len() - i,
        {
            let addr = out[i];
            assert(out@.take(i + 1).drop_last() =~= out@.take(i as int));
            let ghost notes = self.evicted@;
            transport.drop_peer(addr);
            self.evicted.insert(addr.raw, now);
            assert(self@.evicted =~= notes.insert(addr.raw, now));
            i = i + 1;
        }
        assert(out@.take(i as int) =~= out@);
        out
    }
}

// ---------------------------------------------------------------------------
// Hosts that are connected but deaf
// ---------------------------------------------------------------------------

/// What to do about a host that is connected without a session.
#[derive(Debug, Clone, Copy, PartialEq, Eq, Structural)]
pub enum StuckStep {
    Nothing,
    /// It was dropped, so that it reconnects afresh.
    Kick(Address),
    /// Still not subscribed after a reconnect, but other hosts are: it is left
    /// alone rather than re-registering the HID application under them.
    LeaveAlone(Address),
    /// Still not subscribed after a reconnect: re-register the HID
    /// application, then call `reregistered`.
    Reregister(Address),
}

/// What one look at all the hosts finds.
#[verifier::ext_equal]
pub struct StuckScan {
    pub stuck: Map<u64, Instant>,
    pub kicked: Map<u64, Instant>,
    pub helped: Set<u64>,
    /// The first host that has been stuck for too long.
    pub trigger: Option<Address>,
    /// Some host is subscribed.
    pub others: bool,
}

impl ManagerView {
    /// The notes after looking at one more host.
    pub open spec fn looked_at(
        self,
        scan: StuckScan,
        t: TransportView,
        connected: Set<u64>,
        now: Instant,
        slot: u8,
    ) -> StuckScan {
        match host_at(self.bindings, slot) {
            None => scan,
            Some(addr) => if !self.serves(slot) {
                // A host we are disconnecting or evicting is not stuck, it is
                // leaving.
                scan
            } else if !connected.contains(addr.raw) {
                StuckScan {
                    stuck: scan.stuck.remove(addr.raw),
                    helped: scan.helped.remove(addr.raw),
                    ..scan
                }
            } else if t.connected(addr) {
                StuckScan {
                    stuck: scan.stuck.remove(addr.raw),
                    kicked: scan.kicked.remove(addr.raw),
                    others: true,
                    ..scan
                }
            } else if scan.helped.contains(addr.raw) {
                scan
            } else {
                let known = scan.stuck.contains_key(addr.raw);
                let since = if known {
                    scan.stuck[addr.raw]
                } else {
                    now
                };
                StuckScan {
                    stuck: if known {
                        scan.stuck
                    } else {
                        scan.stuck.insert(addr.raw, now)
                    },
                    trigger: if !within(since, now, STUCK_HOST_GRACE_SECS) && scan.trigger is None {
                        Some(addr)
                    } else {
                        scan.trigger
                    },
                    ..scan
                }
            },
        }
    }

    /// The notes after looking at the hosts on slots below `n`.
    pub open spec fn scanned(
        self,
        t: TransportView,
        connected: Set<u64>,
        now: Instant,
        n: nat,
    ) -> StuckScan
        decreases n,
    {
        if n == 0 {
            StuckScan {
                stuck: self.stuck,
                kicked: recent(self.kicked, now, KICK_MEMORY_SECS),
                helped: self.helped,
                trigger: None,
                others: false,
            }
        } else {
            self.looked_at(
                self.scanned(t, connected, now, (n - 1) as nat),
                t,
                connected,
                now,
                (n - 1) as u8,
            )
        }
    }

    /// What to do about what was found, cheapest remedy first.
    pub open spec fn stuck_step(self, scan: StuckScan, now: Instant) -> StuckStep {
        match scan.trigger {
            None => StuckStep::Nothing,
            Some(addr) => if !scan.kicked.contains_key(addr.raw) {
                StuckStep::Kick(addr)
            } else if scan.others {
                StuckStep::LeaveAlone(addr)
            } else if self.last_reregister matches Some(at) && within(
                at,
                now,
                REREGISTER_COOLDOWN_SECS,
            ) {
                StuckStep::Nothing
            } else {
                StuckStep::Reregister(addr)
            },
        }
    }

    /// The notes after that.
    pub open spec fn after_stuck(self, scan: StuckScan, now: Instant) -> ManagerView {
        let seen = ManagerView {
            stuck: scan.stuck,
            kicked: scan.kicked,
            helped: scan.helped,
            ..self
        };
        match self.stuck_step(scan, now) {
            StuckStep::Kick(addr) => ManagerView {
                stuck: scan.stuck.remove(addr.raw),
                kicked: scan.kicked.insert(addr.raw, now),
                ..seen
            },
            StuckStep::LeaveAlone(addr) => ManagerView {
                stuck: scan.stuck.remove(addr.raw),
                helped: scan.helped.insert(addr.raw),
                ..seen
            },
            _ => seen,
        }
    }
}

impl Manager {
    /// Once a second: a bound host that bluetoothd shows connected, yet has
    /// had no input-report session for `STUCK_HOST_GRACE_SECS`, is either a
    /// host whose notification re-enable bluetoothd swallowed (its CCC state
    /// survived the disconnect) or a phone that subscribes in its own time.
    /// Remedies, cheapest first:
    ///
    /// 1. Disconnect just that host. It reconnects within a second and, in
    ///    practice, gets a fresh session; nobody else notices.
    /// 2. If it comes back stuck again within `KICK_MEMORY_SECS` and *no other
    ///    host is subscribed*, re-register the GATT application — the only
    ///    thing that clears stored CCC state. It costs every connected host a
    ///    Service Changed round trip, and macOS does not re-attach its HID
    ///    driver afterwards, so with other hosts live it is not worth it: the
    ///    host is left alone for this connection.
    pub fn poll_stuck_hosts(
        &mut self,
        transport: &mut Transport,
        connected: &HashSet<u64>,
        now: Instant,
    ) -> (r: StuckStep)
        requires
            old(self)@.wf(),
            old(transport)@.wf(),
        ensures
            if old(self)@.kind != TransportKind::Le {
                &&& r == StuckStep::Nothing
                &&& final(self)@ == old(self)@
                &&& final(transport)@ == old(transport)@
            } else {
                let scan = old(self)@.scanned(old(transport)@, connected@, now, 256);
                &&& r == old(self)@.stuck_step(scan, now)
                &&& final(self)@ == old(self)@.after_stuck(scan, now)
                &&& final(transport)@ == match r {
                    StuckStep::Kick(addr) => old(transport)@.without(addr),
                    _ => old(transport)@,
                }
            },
            final(self)@.wf(),
            final(transport)@.wf(),
    {
        if self.kind != TransportKind::Le {
            return StuckStep::Nothing;
        }
        let ghost before = self@;
        let ghost t = transport@;
        retain_recent(&mut self.kicked, now, KICK_MEMORY_SECS);
        let mut trigger: Option<Address> = None;
        let mut others = false;
        let mut n: u16 = 0;
        let ghost mut scan = before.scanned(t, connected@, now, 0);
        while n < 256
            invariant
                n <= 256,
                t == transport@,
                transport@.wf(),
                scan == before.scanned(t, connected@, now, n as nat),
                self@ == (ManagerView {
                    stuck: scan.stuck,
                    kicked: scan.kicked,
                    helped: scan.helped,
                    ..before
                }),
                trigger == scan.trigger,
                others == scan.others,
            decreases 256 - n,
        {
            let slot: u8 = n as u8;
            let ghost next = before.looked_at(scan, t, connected@, now, slot);
            if let Some(addr) = self.host(slot) {
                if self.serves(slot) {
                    if !connected.contains(&addr.raw) {
                        self.stuck.remove(&addr.raw);
                        self.helped.remove(&addr.raw);
                        assert(self.stuck@ =~= next.stuck);
                        assert(self.helped@ =~= next.helped);
                    } else if transport.is_peer_connected(addr) {
                        self.stuck.remove(&addr.raw);
                        self.kicked.remove(&addr.raw);
                        assert(self.stuck@ =~= next.stuck);
                        assert(self.kicked@ =~= next.kicked);
                        others = true;
                    } else if !self.helped.contains(&addr.raw) {
                        let noted: Option<Instant> = match self.stuck.get(&addr.raw) {
                            Some(at) => Some(*at),
                            None => None,
                        };
                        let since = match noted {
                            Some(at) => at,
                            None => {
                                self.stuck.insert(addr.raw, now);
                                now
                            },
                        };
                        assert(self.stuck@ =~= next.stuck);
                        if !is_within(since, now, STUCK_HOST_GRACE_SECS) && trigger.is_none() {
                            trigger = Some(addr);
                        }
                    }
                }
            }
            proof {
                scan = next;
            }
            n = n + 1;
        }
        let addr = match trigger {
            Some(a) => a,
            None => return StuckStep::Nothing,
        };
        if !self.kicked.contains_key(&addr.raw) {
            transport.drop_peer(addr);
            self.kicked.insert(addr.raw, now);
            self.stuck.remove(&addr.raw);
            assert(self@.kicked =~= before.after_stuck(scan, now).kicked);
            assert(self@.stuck =~= before.after_stuck(scan, now).stuck);
            return StuckStep::Kick(addr);
        }
        if others {
            self.helped.insert(addr.raw);
            self.stuck.remove(&addr.raw);
            assert(self@.helped =~= before.after_stuck(scan, now).helped);
            assert(self@.stuck =~= before.after_stuck(scan, now).stuck);
            return StuckStep::LeaveAlone(addr);
        }
        let cooling = match self.last_reregister {
            Some(at) => is_within(at, now, REREGISTER_COOLDOWN_SECS),
            None => false,
        };
        if cooling {
            return StuckStep::Nothing;
        }
        StuckStep::Reregister(addr)
    }

    /// The HID application was registered anew. Every host with a live link
    /// gets the same reset; they all count as served so a host that ignores
    /// Service Changed does not keep us re-registering.
    pub fn reregistered(&mut self, now: Instant)
        requires
            old(self)@.wf(),
        ensures
            final(self)@ == (ManagerView {
                last_reregister: Some(now),
                stuck: Map::empty(),
                kicked: Map::empty(),
                helped: old(self)@.helped.union(raw_set(bound_below(old(self)@.bindings, 256))),
                ..old(self)@
            }),
            final(self)@.wf(),
    {
        let ghost before = self@;
        self.last_reregister = Some(now);
        self.stuck.clear();
        self.kicked.clear();
        let bound = self.bound_hosts();
        let mut i: usize = 0;
        assert(self.helped@ =~= before.helped.union(raw_set(bound@.take(0))));
        while i < bound.len()
            invariant
                i <= bound@.len(),
                self@ == (ManagerView {
                    last_reregister: Some(now),
                    stuck: Map::empty(),
                    kicked: Map::empty(),
                    helped: before.helped.union(raw_set(bound@.take(i as int))),
                    ..before
                }),
            decreases bound@.len() - i,
        {
            self.helped.insert(bound[i].raw);
            proof {
                lemma_raw_set_take(bound@, i as int);
                assert(self.helped@ =~= before.helped.union(raw_set(bound@.take(i + 1))));
            }
            i = i + 1;
        }
        assert(bound@.take(i as int) =~= bound@);
    }
}

proof fn lemma_raw_set_take(list: Seq<Address>, i: int)
    requires
        0 <= i < list.len(),
    ensures
        raw_set(list.take(i + 1)) == raw_set(list.take(i)).insert(list[i].raw),
{
    let head = list.take(i);
    let next = list.take(i + 1);
    assert(next[i] == list[i]);
    assert forall|a: u64| raw_set(next).contains(a) implies raw_set(head).insert(
        list[i].raw,
    ).contains(a) by {
        let j = choose|j: int| 0 <= j < next.len() && (#[trigger] next[j]).raw == a;
        if j < i {
            assert(head[j] == next[j]);
        }
    }
    assert forall|a: u64| raw_set(head).insert(list[i].raw).contains(a) implies raw_set(
        next,
    ).contains(a) by {
        if raw_set(head).contains(a) {
            let j = choose|j: int| 0 <= j < head.len() && (#[trigger] head[j]).raw == a;
            assert(next[j] == head[j]);
        }
    }
    assert(raw_set(next) =~= raw_set(head).insert(list[i].raw));
}

// ---------------------------------------------------------------------------
// Laws
// ---------------------------------------------------------------------------

proof fn lemma_without_all(t: TransportView, list: Seq<Address>, addr: Address)
    requires
        !(t is Log),
    ensures
        !(without_all(t, list) is Log),
        without_all(t, list).connected(addr) == (t.connected(addr) && !raw_set(list).contains(
            addr.raw,
        )),
    decreases list.len(),
{
    if list.len() > 0 {
        let init = list.drop_last();
        lemma_without_all(t, init, addr);
        assert(list.take(list.len() - 1) =~= init);
        assert(list.take(list.len() as int) =~= list);
        lemma_raw_set_take(list, list.len() - 1);
    }
}

proof fn lemma_noted_all(notes: Map<u64, Instant>, list: Seq<Address>, now: Instant, a: u64)
    ensures
        noted_all(notes, list, now).contains_key(a) == (notes.contains_key(a) || raw_set(
            list,
        ).contains(a)),
        raw_set(list).contains(a) ==> noted_all(notes, list, now)[a] == now,
    decreases list.len(),
{
    if list.len() > 0 {
        let init = list.drop_last();
        lemma_noted_all(notes, init, now, a);
        assert(list.take(list.len() - 1) =~= init);
        assert(list.take(list.len() as int) =~= list);
        lemma_raw_set_take(list, list.len() - 1);
    }
}

proof fn lemma_intruders(
    v: ManagerView,
    t: TransportView,
    connected: Set<u64>,
    noted: Map<u64, Instant>,
    n: nat,
    slot: u8,
)
    requires
        slot < n <= 256,
        v.intrudes(t, connected, noted, slot),
    ensures
        raw_set(v.intruders(t, connected, noted, n)).contains(v.bindings[slot].addr.raw),
    decreases n,
{
    let all = v.intruders(t, connected, noted, n);
    let before = v.intruders(t, connected, noted, (n - 1) as nat);
    if slot < n - 1 {
        lemma_intruders(v, t, connected, noted, (n - 1) as nat, slot);
        let a = v.bindings[slot].addr.raw;
        let j = choose|j: int| 0 <= j < before.len() && (#[trigger] before[j]).raw == a;
        assert(all[j] == before[j]);
    } else {
        assert(all[all.len() - 1] == v.bindings[slot].addr);
    }
}

/// One host at a time: after a sweep, a host whose slot is not active has no
/// session left, unless it was told to go a moment ago.
pub proof fn law_one_host_at_a_time(
    v: ManagerView,
    t: TransportView,
    connected: Set<u64>,
    now: Instant,
    slot: u8,
)
    requires
        v.single(),
        v.pairing is None,
        t is Le,
        v.bindings.contains_key(slot),
        slot != v.active_slot,
    ensures
        v.swept(t, connected, now) matches Some((list, noted)) && (without_all(t, list).connected(
            v.bindings[slot].addr,
        ) ==> noted.contains_key(v.bindings[slot].addr.raw)),
{
    let noted = recent(v.evicted, now, EVICT_COOLDOWN_SECS);
    let list = v.intruders(t, connected, noted, 256);
    let addr = v.bindings[slot].addr;
    lemma_without_all(t, list, addr);
    if t.connected(addr) && !noted.contains_key(addr.raw) {
        assert(v.intrudes(t, connected, noted, slot));
        lemma_intruders(v, t, connected, noted, 256, slot);
    }
}

/// A host that was told to go is not told again before the cooldown is over.
pub proof fn law_evicted_hosts_are_given_time(
    v: ManagerView,
    t: TransportView,
    connected: Set<u64>,
    now: Instant,
    later: Instant,
    addr: Address,
)
    requires
        within(now, later, EVICT_COOLDOWN_SECS),
        v.swept(t, connected, now) matches Some((list, _)) && raw_set(list).contains(addr.raw),
    ensures
        v.swept(t, connected, now) matches Some((list, noted)) && recent(
            noted_all(noted, list, now),
            later,
            EVICT_COOLDOWN_SECS,
        ).contains_key(addr.raw),
{
    let (list, noted) = v.swept(t, connected, now)->0;
    lemma_noted_all(noted, list, now, addr.raw);
}

proof fn lemma_scan(v: ManagerView, t: TransportView, connected: Set<u64>, now: Instant, n: nat)
    requires
        n <= 256,
    ensures
        ({
            let scan = v.scanned(t, connected, now, n);
            &&& forall|a: u64| #[trigger]
                scan.kicked.contains_key(a) ==> v.kicked.contains_key(a) && within(
                    v.kicked[a],
                    now,
                    KICK_MEMORY_SECS,
                )
            &&& forall|a: u64| #[trigger]
                scan.stuck.contains_key(a) ==> scan.stuck[a] == now || (v.stuck.contains_key(a)
                    && scan.stuck[a] == v.stuck[a])
            &&& forall|a: u64| #[trigger] scan.helped.contains(a) ==> v.helped.contains(a)
            &&& scan.trigger matches Some(addr) ==> {
                &&& is_bound(v.bindings, addr)
                &&& connected.contains(addr.raw)
                &&& !t.connected(addr)
                &&& v.stuck.contains_key(addr.raw)
                &&& !within(v.stuck[addr.raw], now, STUCK_HOST_GRACE_SECS)
            }
            &&& !scan.others ==> forall|slot: u8|
                slot < n && #[trigger] v.bindings.contains_key(slot) && v.serves(slot)
                    && connected.contains(v.bindings[slot].addr.raw) ==> !t.connected(
                    v.bindings[slot].addr,
                )
        }),
    decreases n,
{
    if n > 0 {
        lemma_scan(v, t, connected, now, (n - 1) as nat);
        let slot = (n - 1) as u8;
        if let Some(addr) = host_at(v.bindings, slot) {
            assert(is_bound(v.bindings, addr));
        }
    }
}

/// Nothing is done about a host that is subscribed, is not connected, or has
/// not been stuck for the whole grace period.
pub proof fn law_only_stuck_hosts_are_touched(
    v: ManagerView,
    t: TransportView,
    connected: Set<u64>,
    now: Instant,
    addr: Address,
)
    requires
        ({
            let step = v.stuck_step(v.scanned(t, connected, now, 256), now);
            ||| step == StuckStep::Kick(addr)
            ||| step == StuckStep::LeaveAlone(addr)
            ||| step == StuckStep::Reregister(addr)
        }),
    ensures
        is_bound(v.bindings, addr),
        connected.contains(addr.raw),
        !t.connected(addr),
        v.stuck.contains_key(addr.raw),
        !within(v.stuck[addr.raw], now, STUCK_HOST_GRACE_SECS),
{
    lemma_scan(v, t, connected, now, 256);
}

/// The application is re-registered only for a host that was kicked already
/// and came back stuck, while no host that is served is subscribed, and not
/// again before the cooldown is over.
pub proof fn law_reregistering_is_the_last_resort(
    v: ManagerView,
    t: TransportView,
    connected: Set<u64>,
    now: Instant,
    addr: Address,
    slot: u8,
)
    requires
        v.stuck_step(v.scanned(t, connected, now, 256), now) == StuckStep::Reregister(addr),
    ensures
        v.kicked.contains_key(addr.raw),
        within(v.kicked[addr.raw], now, KICK_MEMORY_SECS),
        v.last_reregister matches Some(at) ==> !within(at, now, REREGISTER_COOLDOWN_SECS),
        v.bindings.contains_key(slot) && v.serves(slot) && connected.contains(
            v.bindings[slot].addr.raw,
        ) ==> !t.connected(v.bindings[slot].addr),
{
    lemma_scan(v, t, connected, now, 256);
}

proof fn lemma_all_helped(
    v: ManagerView,
    t: TransportView,
    connected: Set<u64>,
    now: Instant,
    n: nat,
)
    requires
        n <= 256,
        forall|slot: u8| #[trigger]
            v.bindings.contains_key(slot) ==> v.helped.contains(v.bindings[slot].addr.raw),
    ensures
        v.scanned(t, connected, now, n).trigger is None,
        forall|a: u64|
            v.helped.contains(a) && connected.contains(a) ==> #[trigger] v.scanned(
                t,
                connected,
                now,
                n,
            ).helped.contains(a),
    decreases n,
{
    if n > 0 {
        lemma_all_helped(v, t, connected, now, (n - 1) as nat);
        let before = v.scanned(t, connected, now, (n - 1) as nat);
        let slot = (n - 1) as u8;
        if v.bindings.contains_key(slot) {
            let a = v.bindings[slot].addr.raw;
            assert(v.helped.contains(a));
            if connected.contains(a) {
                assert(before.helped.contains(a));
            }
        }
    }
}

/// A re-registration serves every bound host: whatever they do, none of them
/// is touched at the next look.
pub proof fn law_one_reregistration_serves_all(
    v: ManagerView,
    t: TransportView,
    connected: Set<u64>,
    now: Instant,
)
    requires
        raw_set(bound_below(v.bindings, 256)).subset_of(v.helped),
    ensures
        v.stuck_step(v.scanned(t, connected, now, 256), now) == StuckStep::Nothing,
{
    lemma_bound_below(v.bindings, 256);
    let list = bound_below(v.bindings, 256);
    assert forall|slot: u8| #[trigger] v.bindings.contains_key(slot) implies v.helped.contains(
        v.bindings[slot].addr.raw,
    ) by {
        let a = v.bindings[slot].addr;
        assert(list.contains(a));
        let i = choose|i: int| 0 <= i < list.len() && list[i] == a;
        assert(list[i].raw == a.raw);
        assert(raw_set(list).contains(a.raw));
    }
    lemma_all_helped(v, t, connected, now, 256);
}

/// A frame that carries state and is held is the last one of its report to be
/// replayed when the host enables that report.
pub proof fn law_held_frames_are_replayed(
    v: ManagerView,
    t: TransportView,
    slot: u8,
    frame: HidFrame,
    push: Push,
)
    requires
        v.routed(t, slot, frame).1 == Route::Held(push),
        push != Push::DroppedMotion,
    ensures
        v.routed(t, slot, frame).0.pending matches Some(p) && {
            let out = replay::of_report(p.buffer.frames, frame@[0]);
            out.len() > 0 && out.last() == frame
        },
{
    let p = v.pending->0;
    let kept = if p.buffer.frames.len() >= replay::CAPACITY {
        p.buffer.frames.drop_first()
    } else {
        p.buffer.frames
    };
    replay::law_take_keeps_the_order(kept, frame, frame@[0]);
}

/// Only where one host is connected at a time are frames ever held; a frame
/// that is sent goes to its own slot's host and changes nothing.
pub proof fn law_frames_go_to_their_host(
    v: ManagerView,
    t: TransportView,
    slot: u8,
    frame: HidFrame,
)
    requires
        v.wf(),
    ensures
        v.routed(t, slot, frame).1 is Held ==> v.single(),
        v.routed(t, slot, frame).1 matches Route::Send(peer) ==> host_at(v.bindings, slot) == Some(
            peer,
        ) && v.routed(t, slot, frame).0 == v,
        v.routed(t, slot, frame).1 == Route::Unbound <==> !v.bindings.contains_key(slot),
{
}

/// A host nobody bound is dropped, unless a window is looking for it.
pub proof fn law_strangers_are_dropped(v: ManagerView, peer: Address)
    requires
        !is_bound(v.bindings, peer),
    ensures
        v.arrival(peer) == Arrival::Dropped <==> !v.looking(),
        v.arrival(peer) is AskBond <==> v.looking(),
{
    lemma_first_slot(v.bindings, peer, 256);
    if let Some(slot) = v.slot_of(peer) {
        assert(host_at(v.bindings, slot) == Some(peer));
    }
}

/// A bound host is never asked about, and is kept wherever every host stays
/// connected.
pub proof fn law_bound_hosts_are_known(v: ManagerView, peer: Address)
    requires
        is_bound(v.bindings, peer),
    ensures
        !(v.arrival(peer) is AskBond),
        !v.single() ==> v.arrival(peer) == Arrival::Keep,
{
    lemma_first_slot(v.bindings, peer, 256);
}

/// A host that was just bound stays, whichever slot is active; it is no
/// candidate any more, and the window looks no further.
pub proof fn law_a_bound_host_may_stay(v: ManagerView, addr: Address, name: Seq<char>)
    requires
        v.wf(),
        v.looking(),
    ensures
        v.after_bind(addr, name).arrival(addr) == Arrival::Keep,
        !v.after_bind(addr, name).candidate(addr),
        !v.after_bind(addr, name).looking(),
{
    let after = v.after_bind(addr, name);
    let slot = (v.pairing->0).slot;
    assert(host_at(after.bindings, slot) == Some(addr));
    lemma_first_slot(after.bindings, addr, 256);
}

/// Re-pairing unbinds one slot and no other, and the slot can be claimed
/// again.
pub proof fn law_repair_unbinds_one_slot(v: ManagerView, slot: u8, other: u8)
    requires
        other != slot,
    ensures
        !v.repair_plan(slot).0.bindings.contains_key(slot),
        v.repair_plan(slot).0.open_plan(slot) == (Plan::Open { slot }),
        host_at(v.repair_plan(slot).0.bindings, other) == host_at(v.bindings, other),
{
}

/// The local slot has no host: nothing is expected there or held for it.
pub proof fn law_local_slot_has_no_host(v: ManagerView, t: TransportView, now: Instant)
    requires
        v.active_slot == LOCAL_SLOT,
    ensures
        v.active_host() is None,
        v.armed(t, now).pending is None,
        !expects_host(
            Connections::Single,
            v.active_host(),
            bound_below(v.bindings, 256),
            Set::empty(),
        ),
{
}

/// An unsettled pairing window owns the advertisement; otherwise the
/// advertisement is settled by one change as long as the same hosts are
/// connected.
pub proof fn law_advertising_settles(v: ManagerView, connected: Set<u64>)
    ensures
        v.looking() ==> v.adv_change(connected) == AdvChange::Keep,
        v.adv_change(connected) == AdvChange::Start ==> (ManagerView {
            adv: Some(false),
            ..v
        }).adv_change(connected) == AdvChange::Keep,
        v.adv_change(connected) == AdvChange::Stop ==> (ManagerView { adv: None, ..v }).adv_change(
            connected,
        ) == AdvChange::Keep,
{
}

/// With every host kept connected, somebody is expected while any bound host
/// is away.
pub proof fn law_all_mode_waits_for_everybody(v: ManagerView, connected: Set<u64>, slot: u8)
    requires
        v.connections == Connections::All,
        v.bindings.contains_key(slot),
        !connected.contains(v.bindings[slot].addr.raw),
    ensures
        expects_host(
            v.connections,
            v.active_host(),
            bound_below(v.bindings, 256),
            connected,
        ),
{
    lemma_bound_below(v.bindings, 256);
    let list = bound_below(v.bindings, 256);
    assert(list.contains(v.bindings[slot].addr));
    let i = choose|i: int| 0 <= i < list.len() && list[i] == v.bindings[slot].addr;
    assert(!connected.contains(list[i].raw));
}

// ---------------------------------------------------------------------------
// What the manager is for
// ---------------------------------------------------------------------------

/// With every host kept connected, the hub advertises while any bound host is
/// away, whichever slot is active, and stops once all of them are here.
pub proof fn law_away_hosts_can_come_back(v: ManagerView, connected: Set<u64>, slot: u8)
    requires
        v.kind == TransportKind::Le,
        v.connections == Connections::All,
        v.pairing is None || (v.pairing->0).bound,
    ensures
        v.bindings.contains_key(slot) && !connected.contains(v.bindings[slot].addr.raw) ==> {
            &&& v.adv is None ==> v.adv_change(connected) == AdvChange::Start
            &&& v.adv == Some(true) ==> v.adv_change(connected) == AdvChange::Start
            &&& v.adv == Some(false) ==> v.adv_change(connected) == AdvChange::Keep
        },
        (forall|s: u8| #[trigger]
            v.bindings.contains_key(s) ==> connected.contains(v.bindings[s].addr.raw)) ==> {
            &&& v.adv is Some ==> v.adv_change(connected) == AdvChange::Stop
            &&& v.adv is None ==> v.adv_change(connected) == AdvChange::Keep
        },
{
    lemma_bound_below(v.bindings, 256);
    let list = bound_below(v.bindings, 256);
    if v.bindings.contains_key(slot) && !connected.contains(v.bindings[slot].addr.raw) {
        assert(list.contains(v.bindings[slot].addr));
        let i = choose|i: int| 0 <= i < list.len() && list[i] == v.bindings[slot].addr;
        assert(!connected.contains(list[i].raw));
    }
    if forall|s: u8| #[trigger]
        v.bindings.contains_key(s) ==> connected.contains(v.bindings[s].addr.raw) {
        assert forall|i: int| 0 <= i < list.len() implies connected.contains(
            (#[trigger] list[i]).raw,
        ) by {
            assert(is_bound(v.bindings, list[i]));
            let s = choose|s: u8| #[trigger] host_at(v.bindings, s) == Some(list[i]);
            assert(v.bindings.contains_key(s));
        }
    }
}

/// With one host at a time, the hub advertises exactly while the host of the
/// active slot is away: not for the local slot, not for an unbound one, and not
/// for anybody else.
pub proof fn law_only_the_active_host_is_called(v: ManagerView, connected: Set<u64>)
    requires
        v.kind == TransportKind::Le,
        v.connections == Connections::Single,
        v.pairing is None || (v.pairing->0).bound,
    ensures
        ({
            let away = v.active_slot != 1 && v.bindings.contains_key(v.active_slot)
                && !connected.contains(v.bindings[v.active_slot].addr.raw);
            &&& away && v.adv != Some(false) ==> v.adv_change(connected) == AdvChange::Start
            &&& away && v.adv == Some(false) ==> v.adv_change(connected) == AdvChange::Keep
            &&& !away && v.adv is Some ==> v.adv_change(connected) == AdvChange::Stop
            &&& !away && v.adv is None ==> v.adv_change(connected) == AdvChange::Keep
        }),
{
}

/// A window that looks for a device owns the advertisement, and only LE has one.
pub proof fn law_a_window_owns_the_advertisement(v: ManagerView, connected: Set<u64>)
    ensures
        v.kind != TransportKind::Le ==> v.adv_change(connected) == AdvChange::Keep,
        v.pairing is Some && !(v.pairing->0).bound ==> v.adv_change(connected) == AdvChange::Keep,
{
}

/// A pairing window looks for a device for sixty seconds and then times out;
/// once a device is bound it only waits for its time.
pub proof fn law_pairing_windows_last_a_minute(
    v: ManagerView,
    slot: u8,
    pre_paired: Set<u64>,
    now: Instant,
    later: Instant,
    addr: Address,
    name: Seq<char>,
)
    requires
        now.in_range(),
    ensures
        ({
            let open = v.opened(slot, pre_paired, now);
            let bound = open.after_bind(addr, name);
            let over = later.nanos >= now.nanos + 60_000_000_000;
            &&& over ==> open.window_poll(later) == WindowPoll::Expired
            &&& !over ==> open.window_poll(later) == WindowPoll::Look
            &&& over ==> bound.window_poll(later) == WindowPoll::Expired
            &&& !over ==> bound.window_poll(later) == WindowPoll::Idle
            &&& open.bindings == v.bindings
            &&& open.active_slot == v.active_slot
        }),
{
}

/// A window takes devices that were not paired when it opened and are bound to
/// no slot, and no others.
pub proof fn law_windows_take_new_devices(
    v: ManagerView,
    slot: u8,
    pre_paired: Seq<Address>,
    now: Instant,
    addr: Address,
)
    ensures
        v.opened(slot, raw_set(pre_paired), now).candidate(addr) <==> {
            &&& forall|i: int|
                0 <= i < pre_paired.len() ==> (#[trigger] pre_paired[i]).raw != addr.raw
            &&& forall|s: u8| #[trigger]
                v.bindings.contains_key(s) ==> v.bindings[s].addr != addr
        },
{
    let open = v.opened(slot, raw_set(pre_paired), now);
    if is_bound(v.bindings, addr) {
        let s = choose|s: u8| #[trigger] host_at(v.bindings, s) == Some(addr);
        assert(v.bindings.contains_key(s));
    } else {
        assert forall|s: u8| #[trigger] v.bindings.contains_key(s) implies v.bindings[s].addr
            != addr by {
            assert(host_at(v.bindings, s) == Some(v.bindings[s].addr));
        }
    }
}

/// Binding gives the window's slot to the device, under the name the first
/// target of that slot gives it, otherwise under its own. It is a learned
/// binding, and the other slots keep theirs.
pub proof fn law_binding_claims_the_slot(
    v: ManagerView,
    addr: Address,
    name: Seq<char>,
    other: u8,
    i: int,
)
    requires
        v.pairing is Some,
        other != (v.pairing->0).slot,
    ensures
        ({
            let slot = (v.pairing->0).slot;
            let after = v.after_bind(addr, name);
            &&& after.bindings.contains_key(slot)
            &&& after.bindings[slot].addr == addr
            &&& !after.bindings[slot].from_config
            &&& (forall|j: int| 0 <= j < v.targets.len() ==> (#[trigger] v.targets[j]).slot != slot)
                ==> after.bindings[slot].name == name
            &&& 0 <= i < v.targets.len() && v.targets[i].slot == slot && (forall|j: int|
                0 <= j < i ==> (#[trigger] v.targets[j]).slot != slot)
                ==> after.bindings[slot].name == v.targets[i].name
            &&& after.bindings.contains_key(other) == v.bindings.contains_key(other)
            &&& v.bindings.contains_key(other) ==> after.bindings[other] == v.bindings[other]
            &&& after.active_slot == v.active_slot
        }),
{
    let slot = (v.pairing->0).slot;
    if forall|j: int| 0 <= j < v.targets.len() ==> (#[trigger] v.targets[j]).slot != slot {
        lemma_no_configured_name(v.targets, slot);
    }
    if 0 <= i < v.targets.len() && v.targets[i].slot == slot && (forall|j: int|
        0 <= j < i ==> (#[trigger] v.targets[j]).slot != slot) {
        lemma_configured_name(v.targets, slot, i);
    }
}

/// A forced re-pair drops the binding of its slot and asks to remove that very
/// host; without a binding it opens a window, unless one is open for the slot.
pub proof fn law_repair_forgets_the_host(v: ManagerView, slot: u8)
    ensures
        v.bindings.contains_key(slot) ==> {
            &&& v.repair_plan(slot).1 == (Plan::Unpair {
                slot,
                addr: v.bindings[slot].addr,
                from_config: v.bindings[slot].from_config,
            })
            &&& v.heal_plan(slot).1 == (Plan::Reopen {
                slot,
                addr: v.bindings[slot].addr,
                from_config: v.bindings[slot].from_config,
            })
            &&& !v.repair_plan(slot).0.bindings.contains_key(slot)
            &&& !v.heal_plan(slot).0.bindings.contains_key(slot)
            &&& v.open_plan(slot) == Plan::Nothing
        },
        !v.bindings.contains_key(slot) ==> {
            &&& v.repair_plan(slot).0 == v
            &&& v.repair_plan(slot).1 == (if v.pairing is Some && (v.pairing->0).slot == slot {
                Plan::Nothing
            } else {
                Plan::Open { slot }
            })
            &&& v.heal_plan(slot).1 == Plan::Nothing
            &&& v.open_plan(slot) == (Plan::Open { slot })
        },
{
}

/// With one host at a time, a bound host that shows up while none of its slots
/// is active is dropped, except during a pairing window.
pub proof fn law_uninvited_hosts_are_sent_away(v: ManagerView, peer: Address, slot: u8)
    requires
        v.kind == TransportKind::Le,
        v.connections == Connections::Single,
        v.bindings.contains_key(slot),
        v.bindings[slot].addr == peer,
    ensures
        v.pairing is Some ==> v.arrival(peer) == Arrival::Keep,
        v.pairing is None && (forall|s: u8| #[trigger]
            v.bindings.contains_key(s) && v.bindings[s].addr == peer ==> s != v.active_slot)
            ==> v.arrival(peer) == Arrival::Dropped,
        v.pairing is None && slot == v.active_slot && (forall|s: u8| #[trigger]
            v.bindings.contains_key(s) && v.bindings[s].addr == peer ==> s == slot) ==> v.arrival(
            peer,
        ) == Arrival::Keep,
{
    lemma_first_slot(v.bindings, peer, 256);
    assert(host_at(v.bindings, slot) == Some(peer));
    let s = v.slot_of(peer)->0;
    assert(v.bindings.contains_key(s) && v.bindings[s].addr == peer);
}

/// A frame is held exactly while its slot's host is the one that is waited for
/// and has not enabled that report; otherwise it goes to that host.
pub proof fn law_frames_wait_for_their_host(
    v: ManagerView,
    t: TransportView,
    slot: u8,
    frame: HidFrame,
)
    requires
        v.bindings.contains_key(slot),
    ensures
        ({
            let host = v.bindings[slot].addr;
            let waits = v.pending is Some && (v.pending->0).addr == host && !t.subscribed(
                host,
                frame@[0],
            );
            &&& waits ==> v.routed(t, slot, frame).1 is Held
            &&& !waits ==> v.routed(t, slot, frame).1 == Route::Send(host)
        }),
{
}

/// With one host at a time, frames are held for the host of the active slot from
/// the switch on, unless it has all three input reports enabled already.
pub proof fn law_the_new_host_is_waited_for(v: ManagerView, t: TransportView, now: Instant)
    ensures
        ({
            let wanted = v.kind == TransportKind::Le && v.connections == Connections::Single
                && v.active_slot != 1 && v.bindings.contains_key(v.active_slot);
            let host = v.bindings[v.active_slot].addr;
            let ready = t.subscribed(host, 1) && t.subscribed(host, 2) && t.subscribed(host, 4);
            &&& wanted && !ready ==> {
                &&& v.armed(t, now).pending is Some
                &&& (v.armed(t, now).pending->0).addr == host
                &&& (v.armed(t, now).pending->0).since == now
                &&& (v.armed(t, now).pending->0).buffer.frames.len() == 0
            }
            &&& !(wanted && !ready) ==> v.armed(t, now).pending is None
            &&& fully_subscribed(t, host) <==> ready
        }),
{
}

/// A host that is left is the one to disconnect, unless it is also the new one,
/// and its notes start afresh.
pub proof fn law_the_host_left_is_disconnected(v: ManagerView, left: Address)
    ensures
        v.active_slot != 1 && v.bindings.contains_key(v.active_slot)
            && v.bindings[v.active_slot].addr == left ==> v.leaves(Some(left)) is None,
        v.active_slot == 1 || !v.bindings.contains_key(v.active_slot)
            || v.bindings[v.active_slot].addr != left ==> v.leaves(Some(left)) == Some(left),
        v.leaves(None) is None,
        !v.forgotten(left).stuck.contains_key(left.raw),
        !v.forgotten(left).kicked.contains_key(left.raw),
        !v.forgotten(left).helped.contains(left.raw),
{
}

/// The times the manager goes by, in seconds.
pub proof fn law_manager_times(at: Instant, now: Instant, secs: u64)
    requires
        at.nanos <= now.nanos,
    ensures
        within(at, now, secs) <==> now.nanos < at.nanos + secs * 1_000_000_000,
        PAIRING_WINDOW_SECS == 60,
        STUCK_HOST_GRACE_SECS == 3,
        KICK_MEMORY_SECS == 30,
        REREGISTER_COOLDOWN_SECS == 10,
        REPLAY_WINDOW_SECS == 8,
        EVICT_COOLDOWN_SECS == 5,
        ADV_REREGISTER_DELAY_MS == 250,
{
}

proof fn lemma_intruders_are(
    v: ManagerView,
    t: TransportView,
    connected: Set<u64>,
    noted: Map<u64, Instant>,
    n: nat,
    i: int,
)
    requires
        n <= 256,
        0 <= i < v.intruders(t, connected, noted, n).len(),
    ensures
        exists|slot: u8| #[trigger]
            v.bindings.contains_key(slot) && v.bindings[slot].addr == v.intruders(
                t,
                connected,
                noted,
                n,
            )[i] && v.intrudes(t, connected, noted, slot),
    decreases n,
{
    if n > 0 {
        let before = v.intruders(t, connected, noted, (n - 1) as nat);
        let all = v.intruders(t, connected, noted, n);
        let slot = (n - 1) as u8;
        if i < before.len() {
            lemma_intruders_are(v, t, connected, noted, (n - 1) as nat, i);
            assert(all[i] == before[i]);
        } else {
            assert(v.bindings.contains_key(slot) && v.bindings[slot].addr == all[i]);
        }
    }
}

/// The sweep, with one host at a time and no window open, tells to go exactly
/// the hosts of inactive slots that are connected in either view and were not
/// told in the last five seconds. Otherwise there is no sweep.
pub proof fn law_the_sweep_finds_intruders(
    v: ManagerView,
    t: TransportView,
    connected: Set<u64>,
    now: Instant,
    slot: u8,
    i: int,
)
    ensures
        v.kind == TransportKind::Le && v.connections == Connections::Single && v.pairing is None
            <==> v.swept(t, connected, now) is Some,
        v.swept(t, connected, now) is Some ==> {
            let list = (v.swept(t, connected, now)->0).0;
            let told = |a: u64|
                v.evicted.contains_key(a) && (now.nanos < v.evicted[a].nanos || now.nanos
                    - v.evicted[a].nanos < 5_000_000_000);
            &&& v.bindings.contains_key(slot) && slot != v.active_slot && (connected.contains(
                v.bindings[slot].addr.raw,
            ) || t.connected(v.bindings[slot].addr)) && !told(v.bindings[slot].addr.raw)
                ==> raw_set(list).contains(v.bindings[slot].addr.raw)
            &&& 0 <= i < list.len() ==> {
                &&& !told(list[i].raw)
                &&& connected.contains(list[i].raw) || t.connected(list[i])
                &&& exists|s: u8| #[trigger]
                    v.bindings.contains_key(s) && v.bindings[s].addr == list[i] && s
                        != v.active_slot
            }
        },
{
    let noted = recent(v.evicted, now, EVICT_COOLDOWN_SECS);
    if v.swept(t, connected, now) is Some {
        let list = v.intruders(t, connected, noted, 256);
        if v.bindings.contains_key(slot) && v.intrudes(t, connected, noted, slot) {
            lemma_intruders(v, t, connected, noted, 256, slot);
        }
        if 0 <= i < list.len() {
            lemma_intruders_are(v, t, connected, noted, 256, i);
            let s = choose|s: u8| #[trigger]
                v.bindings.contains_key(s) && v.bindings[s].addr == list[i] && v.intrudes(
                    t,
                    connected,
                    noted,
                    s,
                );
            assert(v.bindings.contains_key(s) && s != v.active_slot);
        }
    }
}

proof fn lemma_scan_deaf(
    v: ManagerView,
    t: TransportView,
    connected: Set<u64>,
    now: Instant,
    n: nat,
    addr: Address,
)
    requires
        n <= 256,
        connected.contains(addr.raw),
        !t.connected(addr),
    ensures
        ({
            let scan = v.scanned(t, connected, now, n);
            let a = addr.raw;
            &&& v.stuck.contains_key(a) ==> scan.stuck.contains_key(a) && scan.stuck[a]
                == v.stuck[a]
            &&& !v.stuck.contains_key(a) && scan.stuck.contains_key(a) ==> scan.stuck[a] == now
            &&& scan.kicked.contains_key(a) <==> v.kicked.contains_key(a) && within(
                v.kicked[a],
                now,
                KICK_MEMORY_SECS,
            )
            &&& scan.helped.contains(a) <==> v.helped.contains(a)
            &&& forall|slot: u8|
                slot < n && #[trigger] v.bindings.contains_key(slot) && v.bindings[slot].addr
                    == addr && v.serves(slot) && !v.helped.contains(a) ==> scan.stuck.contains_key(
                    a,
                ) && (v.stuck.contains_key(a) && !within(
                    v.stuck[a],
                    now,
                    STUCK_HOST_GRACE_SECS,
                ) ==> scan.trigger is Some)
        }),
    decreases n,
{
    if n > 0 {
        lemma_scan_deaf(v, t, connected, now, (n - 1) as nat, addr);
    }
}

proof fn lemma_scan_attached(
    v: ManagerView,
    t: TransportView,
    connected: Set<u64>,
    now: Instant,
    n: nat,
    slot: u8,
)
    requires
        slot < n <= 256,
        v.bindings.contains_key(slot),
        v.serves(slot),
    ensures
        ({
            let scan = v.scanned(t, connected, now, n);
            let addr = v.bindings[slot].addr;
            &&& connected.contains(addr.raw) && t.connected(addr) ==> scan.others
                && !scan.stuck.contains_key(addr.raw) && !scan.kicked.contains_key(addr.raw)
            &&& !connected.contains(addr.raw) ==> !scan.stuck.contains_key(addr.raw)
                && !scan.helped.contains(addr.raw)
        }),
    decreases n,
{
    if slot < n - 1 {
        lemma_scan_attached(v, t, connected, now, (n - 1) as nat, slot);
    }
}

/// A served host that is connected without a session is noted, and once that has
/// lasted three seconds something is done about it or another such host, unless
/// the application was registered anew less than ten seconds ago.
pub proof fn law_deaf_hosts_are_helped(
    v: ManagerView,
    t: TransportView,
    connected: Set<u64>,
    now: Instant,
    slot: u8,
)
    requires
        v.bindings.contains_key(slot),
        v.serves(slot),
        connected.contains(v.bindings[slot].addr.raw),
        !t.connected(v.bindings[slot].addr),
        !v.helped.contains(v.bindings[slot].addr.raw),
    ensures
        ({
            let a = v.bindings[slot].addr.raw;
            let scan = v.scanned(t, connected, now, 256);
            let step = v.stuck_step(scan, now);
            &&& !v.stuck.contains_key(a) ==> scan.stuck.contains_key(a) && scan.stuck[a] == now
            &&& v.stuck.contains_key(a) ==> scan.stuck.contains_key(a) && scan.stuck[a]
                == v.stuck[a]
            &&& v.stuck.contains_key(a) && now.nanos >= v.stuck[a].nanos + 3_000_000_000 ==> {
                ||| step is Kick
                ||| step is LeaveAlone
                ||| step is Reregister
                ||| v.last_reregister is Some && now.nanos < (v.last_reregister->0).nanos
                    + 10_000_000_000
            }
        }),
{
    lemma_scan_deaf(v, t, connected, now, 256, v.bindings[slot].addr);
}

/// Which remedy: a host that was not kicked in the last thirty seconds is
/// kicked, and that is noted; otherwise it is left alone where a served host is
/// subscribed, and that is noted too.
pub proof fn law_remedies_escalate(
    v: ManagerView,
    t: TransportView,
    connected: Set<u64>,
    now: Instant,
    addr: Address,
    slot: u8,
)
    ensures
        ({
            let scan = v.scanned(t, connected, now, 256);
            let step = v.stuck_step(scan, now);
            let after = v.after_stuck(scan, now);
            let fresh = v.kicked.contains_key(addr.raw) && (now.nanos < v.kicked[addr.raw].nanos
                || now.nanos - v.kicked[addr.raw].nanos < 30_000_000_000);
            let others = v.bindings.contains_key(slot) && v.serves(slot) && connected.contains(
                v.bindings[slot].addr.raw,
            ) && t.connected(v.bindings[slot].addr);
            &&& step == StuckStep::Kick(addr) ==> !fresh && after.kicked.contains_key(addr.raw)
                && after.kicked[addr.raw] == now && !after.stuck.contains_key(addr.raw)
            &&& step == StuckStep::LeaveAlone(addr) ==> fresh && after.helped.contains(addr.raw)
                && !after.stuck.contains_key(addr.raw)
            &&& step == StuckStep::Reregister(addr) ==> fresh && !others
            &&& after.bindings == v.bindings
            &&& after.active_slot == v.active_slot
            &&& after.pairing == v.pairing
        }),
{
    lemma_scan(v, t, connected, now, 256);
    if connected.contains(addr.raw) && !t.connected(addr) {
        lemma_scan_deaf(v, t, connected, now, 256, addr);
    }
}

/// A served host that subscribed is no longer noted as stuck or kicked; one that
/// is gone is no longer noted as stuck or helped.
pub proof fn law_notes_end_with_the_trouble(
    v: ManagerView,
    t: TransportView,
    connected: Set<u64>,
    now: Instant,
    slot: u8,
)
    requires
        v.bindings.contains_key(slot),
        v.serves(slot),
    ensures
        ({
            let addr = v.bindings[slot].addr;
            let after = v.after_stuck(v.scanned(t, connected, now, 256), now);
            &&& connected.contains(addr.raw) && t.connected(addr) ==> !after.stuck.contains_key(
                addr.raw,
            ) && !after.kicked.contains_key(addr.raw)
            &&& !connected.contains(addr.raw) ==> !after.stuck.contains_key(addr.raw)
                && !after.helped.contains(addr.raw)
        }),
{
    lemma_scan(v, t, connected, now, 256);
    lemma_scan_attached(v, t, connected, now, 256, slot);
}

/// Whom the hub serves: everybody, or with one host at a time the active slot.
pub proof fn law_whom_the_hub_serves(v: ManagerView, slot: u8)
    ensures
        v.kind == TransportKind::Le && v.connections == Connections::Single ==> (v.serves(slot)
            <==> slot == v.active_slot),
        !(v.kind == TransportKind::Le && v.connections == Connections::Single) ==> v.serves(slot),
{
}

/// The slot a host is known by is the lowest it is bound to.
pub proof fn law_lowest_slot_counts(m: Map<u8, BindingView>, addr: Address, slot: u8)
    ensures
        first_slot(m, addr, 256) is Some ==> m.contains_key(first_slot(m, addr, 256)->0) && m[first_slot(
            m,
            addr,
            256,
        )->0].addr == addr,
        m.contains_key(slot) && m[slot].addr == addr ==> first_slot(m, addr, 256) is Some && (
        first_slot(m, addr, 256)->0) <= slot,
        host_at(m, slot) is Some <==> m.contains_key(slot),
        m.contains_key(slot) ==> host_at(m, slot) == Some(m[slot].addr),
{
    lemma_first_slot(m, addr, 256);
    if m.contains_key(slot) && m[slot].addr == addr {
        assert(host_at(m, slot) == Some(addr));
    }
}

/// The bound hosts are those of the bindings, each and no other.
pub proof fn law_bound_hosts_are_listed(m: Map<u8, BindingView>, slot: u8, i: int)
    ensures
        m.contains_key(slot) ==> bound_below(m, 256).contains(m[slot].addr),
        0 <= i < bound_below(m, 256).len() ==> exists|s: u8| #[trigger]
            m.contains_key(s) && m[s].addr == bound_below(m, 256)[i],
{
    lemma_bound_below(m, 256);
    if 0 <= i < bound_below(m, 256).len() {
        let addr = bound_below(m, 256)[i];
        assert(is_bound(m, addr));
        let s = choose|s: u8| #[trigger] host_at(m, s) == Some(addr);
        assert(m.contains_key(s));
    }
}

/// A slot is called as the first target that has it says, if any does.
pub proof fn law_targets_name_their_slot(targets: Seq<TargetView>, slot: u8, i: int)
    ensures
        0 <= i < targets.len() && targets[i].slot == slot && (forall|j: int|
            0 <= j < i ==> (#[trigger] targets[j]).slot != slot) ==> configured_name(targets, slot)
            == Some(targets[i].name),
        (forall|j: int| 0 <= j < targets.len() ==> (#[trigger] targets[j]).slot != slot)
            ==> configured_name(targets, slot) is None,
{
    if 0 <= i < targets.len() && targets[i].slot == slot && (forall|j: int|
        0 <= j < i ==> (#[trigger] targets[j]).slot != slot) {
        lemma_configured_name(targets, slot, i);
    }
    if forall|j: int| 0 <= j < targets.len() ==> (#[trigger] targets[j]).slot != slot {
        lemma_no_configured_name(targets, slot);
    }
}

/// Every host told to go is noted as told now and has no connection left; what
/// is noted of the others, and their connections, stay.
#[verifier::rlimit(30)]
pub proof fn law_told_hosts_are_noted(
    notes: Map<u64, Instant>,
    t: TransportView,
    list: Seq<Address>,
    now: Instant,
    other: Address,
    id: u8,
)
    requires
        !(t is Log),
    ensures
        forall|i: int|
            0 <= i < list.len() ==> noted_all(notes, list, now).contains_key(
                (#[trigger] list[i]).raw,
            ) && noted_all(notes, list, now)[list[i].raw] == now && !without_all(t, list).connected(
                list[i],
            ),
        !(without_all(t, list) is Log),
        (forall|i: int| 0 <= i < list.len() ==> (#[trigger] list[i]).raw != other.raw) ==> {
            &&& noted_all(notes, list, now).contains_key(other.raw) == notes.contains_key(other.raw)
            &&& notes.contains_key(other.raw) ==> noted_all(notes, list, now)[other.raw]
                == notes[other.raw]
            &&& without_all(t, list).connected(other) == t.connected(other)
            &&& without_all(t, list).subscribed(other, id) == t.subscribed(other, id)
        },
    decreases list.len(),
{
    if list.len() > 0 {
        let init = list.drop_last();
        law_told_hosts_are_noted(notes, t, init, now, other, id);
        let before = without_all(t, init);
        assert forall|i: int| 0 <= i < list.len() implies noted_all(notes, list, now).contains_key(
            (#[trigger] list[i]).raw,
        ) && noted_all(notes, list, now)[list[i].raw] == now && !without_all(t, list).connected(
            list[i],
        ) by {
            if i < init.len() {
                assert(init[i] == list[i]);
                assert(!before.connected(init[i]));
            }
        }
        if forall|i: int| 0 <= i < list.len() ==> (#[trigger] list[i]).raw != other.raw {
            assert forall|i: int| 0 <= i < init.len() implies (#[trigger] init[i]).raw
                != other.raw by {
                assert(list[i] == init[i]);
            }
            assert(list[list.len() - 1] == list.last());
        }
    }
}

} // verus!
