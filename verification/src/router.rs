//! The router owns the switching state: it feeds every event through the
//! hotkey FSM, then dispatches to the local sink or the HID translator and the
//! Bluetooth side depending on the active slot. It decides and lists what is
//! to be done; the devices, channels and timers are the caller's.

use vstd::prelude::*;

use crate::bt::BtCmd;
use crate::config::LOCAL_SLOT;
use crate::hid;
use crate::hid::translate;
use crate::hid::translate::{Translator, TranslatorState};
use crate::hid::HidFrame;
use crate::hooks::HookEvent;
use crate::input::codes::EventType;
use crate::input::hotkey;
use crate::input::hotkey::{HotkeyFsm, HotkeyState, Verdict, VerdictView};
use crate::input::keys::KeyCombo;
use crate::input::InputEvent;
use crate::rgb::{Activity, RgbEvent, ACTIVITY_COALESCE_MS};
use crate::state::Bindings;
use crate::time;
use crate::time::{Duration, Instant};

verus! {

broadcast use {vstd::seq::group_seq_axioms, vstd::std_specs::btree::group_btree_axioms};

/// How long a slot's combo must be held to force it to re-pair — Shift makes
/// no difference, it is the held F-key that means this. Long enough that
/// leaning on the combo cannot cost you a pairing.
pub const REPAIR_HOLD_SECS: u64 = 3;

/// A combo F-key being held: once the deadline passes, the slot is asked to
/// re-pair.
#[derive(Debug, Clone, Copy, PartialEq, Eq, Structural)]
pub struct RepairHold {
    pub slot: u8,
    pub at: Instant,
    /// Already requested; do not fire again while the key stays down.
    pub fired: bool,
}

/// One thing to be done, in the order listed.
#[derive(Debug, Clone, Copy, PartialEq, Eq)]
pub enum Action {
    /// Tell the lighting that the user is here.
    Ping { at: Instant },
    /// Re-inject the event into the local session.
    Emit { event: InputEvent },
    /// Hand a report to the Bluetooth side, tagged with the slot it is for.
    /// Never waits: a stalled link must not back-pressure input handling.
    Frame { slot: u8, frame: HidFrame },
    /// Another slot is active now.
    Slot { slot: u8 },
    /// Ask the Bluetooth side.
    Command { cmd: BtCmd },
    /// Ask for hook or macro commands. Never waits: a slow hook task loses the
    /// event instead of stalling input.
    Hook { event: HookEvent },
    /// Ask the lighting. Cosmetic and best-effort.
    Lighting { event: RgbEvent },
}

/// The content of an [`Action`].
pub enum ActionView {
    Ping { at: Instant },
    Emit { event: InputEvent },
    Frame { slot: u8, frame: Seq<u8> },
    Slot { slot: u8 },
    Command { cmd: BtCmd },
    Hook { event: HookEvent },
    Lighting { event: RgbEvent },
}

impl View for Action {
    type V = ActionView;

    open spec fn view(&self) -> ActionView {
        match self {
            Action::Ping { at } => ActionView::Ping { at: *at },
            Action::Emit { event } => ActionView::Emit { event: *event },
            Action::Frame { slot, frame } => ActionView::Frame { slot: *slot, frame: frame@ },
            Action::Slot { slot } => ActionView::Slot { slot: *slot },
            Action::Command { cmd } => ActionView::Command { cmd: *cmd },
            Action::Hook { event } => ActionView::Hook { event: *event },
            Action::Lighting { event } => ActionView::Lighting { event: *event },
        }
    }
}

/// The contents of a list of actions.
pub open spec fn action_views(list: Seq<Action>) -> Seq<ActionView> {
    Seq::new(list.len(), |i: int| list[i]@)
}

/// What remains to be done once the local keys have been let go.
#[derive(Debug, Clone, Copy, PartialEq, Eq, Structural)]
pub enum Resume {
    Switch { slot: u8, fire_hooks: bool },
    Macro { index: usize },
}

/// Local keys to let go before anything else happens. If that fails, what
/// would follow is given up.
#[derive(Debug, Clone, PartialEq, Eq)]
pub struct Release {
    pub keys: Vec<u16>,
    pub next: Resume,
}

/// The content of a [`Release`].
pub struct ReleaseView {
    pub keys: Seq<u16>,
    pub next: Resume,
}

impl View for Release {
    type V = ReleaseView;

    open spec fn view(&self) -> ReleaseView {
        ReleaseView { keys: self.keys@, next: self.next }
    }
}

/// What an event asks for: actions, and then possibly a local release that has
/// to succeed before [`Router::resume`] says what follows it.
pub struct Step {
    pub actions: Vec<Action>,
    pub release: Option<Release>,
}

/// The content of a [`Step`].
pub struct StepView {
    pub actions: Seq<ActionView>,
    pub release: Option<ReleaseView>,
}

impl View for Step {
    type V = StepView;

    open spec fn view(&self) -> StepView {
        StepView {
            actions: action_views(self.actions@),
            release: match self.release {
                Some(r) => Some(r@),
                None => None,
            },
        }
    }
}

pub struct Router {
    slot: u8,
    fsm: HotkeyFsm,
    translator: Translator,
    /// Slot activations and macro presses are handed on: hooks or macros are
    /// configured.
    hooks: bool,
    /// Keeps the lighting awake while the user is at the desk. `None` when
    /// lighting is off.
    activity: Option<Activity>,
    /// Repaint requests are handed on: lighting is on.
    lighting: bool,
    /// Keys forwarded as pressed to the *local* target, in the order they were
    /// pressed; used to synthesize releases when switching away. (The
    /// translator tracks the remote side.)
    local_held: Vec<u16>,
    dropped_frames: u64,
    /// Mouse motion pacing: minimum spacing between motion reports.
    mouse_interval: Duration,
    /// The earliest instant the next motion report may go out.
    mouse_ready_at: Instant,
    /// Deadline of a deferred motion flush, if motion arrived too soon after
    /// the previous report.
    mouse_flush_at: Option<Instant>,
    /// A combo F-key being held.
    repair_hold: Option<RepairHold>,
}

/// The state of a [`Router`].
#[verifier::ext_equal]
pub struct RouterView {
    pub slot: u8,
    pub hotkeys: HotkeyState,
    pub translator: TranslatorState,
    pub hooks: bool,
    /// When the last activity signal wears off, if lighting is on.
    pub activity: Option<Instant>,
    pub lighting: bool,
    pub local_held: Seq<u16>,
    pub dropped_frames: int,
    pub mouse_interval: Duration,
    pub mouse_ready_at: Instant,
    pub mouse_flush_at: Option<Instant>,
    pub repair_hold: Option<RepairHold>,
}

impl View for Router {
    type V = RouterView;

    closed spec fn view(&self) -> RouterView {
        RouterView {
            slot: self.slot,
            hotkeys: self.fsm@,
            translator: self.translator@,
            hooks: self.hooks,
            activity: match self.activity {
                Some(a) => Some(a.burst_end()),
                None => None,
            },
            lighting: self.lighting,
            local_held: self.local_held@,
            dropped_frames: self.dropped_frames as int,
            mouse_interval: self.mouse_interval,
            mouse_ready_at: self.mouse_ready_at,
            mouse_flush_at: self.mouse_flush_at,
            repair_hold: self.repair_hold,
        }
    }
}

// ---------------------------------------------------------------------------
// What the router does
// ---------------------------------------------------------------------------

/// Reports as actions for a slot.
pub open spec fn frame_actions(slot: u8, reports: Seq<Seq<u8>>) -> Seq<ActionView> {
    Seq::new(reports.len(), |i: int| ActionView::Frame { slot, frame: reports[i] })
}

/// A key of a list, if it is not there yet, at its end.
pub open spec fn added(list: Seq<u16>, key: u16) -> Seq<u16> {
    if list.contains(key) {
        list
    } else {
        list.push(key)
    }
}

/// A list without a key.
pub open spec fn dropped(list: Seq<u16>, key: u16) -> Seq<u16> {
    if list.contains(key) {
        list.remove(list.index_of(key))
    } else {
        list
    }
}

/// A list without any of some keys.
pub open spec fn dropped_all(list: Seq<u16>, keys: Seq<u16>) -> Seq<u16>
    decreases keys.len(),
{
    if keys.len() == 0 {
        list
    } else {
        dropped(dropped_all(list, keys.drop_last()), keys.last())
    }
}

/// The keys that dropping all of `keys` finds in the list.
pub open spec fn found_of(list: Seq<u16>, keys: Seq<u16>) -> Seq<u16>
    decreases keys.len(),
{
    if keys.len() == 0 {
        Seq::empty()
    } else {
        let before = found_of(list, keys.drop_last());
        if dropped_all(list, keys.drop_last()).contains(keys.last()) {
            before.push(keys.last())
        } else {
            before
        }
    }
}

/// Keys let go one after the other.
pub open spec fn keys_released(s: TranslatorState, keys: Seq<u16>) -> TranslatorState
    decreases keys.len(),
{
    if keys.len() == 0 {
        s
    } else {
        translate::after_key(keys_released(s, keys.drop_last()), keys.last(), 0)
    }
}

/// The spacing of motion reports at a rate.
pub open spec fn interval_of(rate_hz: u32) -> Duration {
    Duration {
        nanos: (1_000_000int / (if rate_hz < 1 {
            1int
        } else {
            rate_hz as int
        }) * 1000) as u128,
    }
}

impl RouterView {
    /// What every reachable state satisfies. Nothing stays stuck: while the
    /// local slot is active nothing is held or pending remotely, while a
    /// remote slot is active nothing is held locally.
    pub open spec fn wf(self) -> bool {
        &&& self.hotkeys.wf()
        &&& self.translator.wf()
        &&& self.local_held.no_duplicates()
        &&& self.slot == LOCAL_SLOT ==> self.translator == translate::idle()
            && self.mouse_flush_at is None
        &&& self.slot != LOCAL_SLOT ==> self.local_held.len() == 0
        &&& self.mouse_interval.nanos <= 1_000_000_000
        &&& translate::motion_fits(self.translator)
    }

    /// Pending motion and buttons sent at once.
    pub open spec fn mouse_flushed(self, now: Instant) -> RouterView {
        RouterView {
            translator: TranslatorState {
                buttons_dirty: false,
                dx: 0,
                dy: 0,
                wheel: 0,
                ..self.translator
            },
            mouse_flush_at: None,
            mouse_ready_at: if translate::pending_mouse(self.translator).len() > 0 {
                now.plus(self.mouse_interval)
            } else {
                self.mouse_ready_at
            },
            ..self
        }
    }

    /// The reports that sends.
    pub open spec fn mouse_frames(self) -> Seq<ActionView> {
        frame_actions(self.slot, translate::pending_mouse(self.translator))
    }

    /// Keyboard and consumer reports sent.
    pub open spec fn keys_flushed(self) -> RouterView {
        RouterView {
            translator: TranslatorState {
                kbd_dirty: false,
                consumer_dirty: false,
                ..self.translator
            },
            ..self
        }
    }

    /// The reports that sends.
    pub open spec fn key_frames(self) -> Seq<ActionView> {
        frame_actions(
            self.slot,
            translate::pending_keyboard(self.translator) + translate::pending_consumer(
                self.translator,
            ),
        )
    }

    /// Mouse reports may go out now: a button changed, or the link has been
    /// quiet for an interval.
    pub open spec fn mouse_may_go(self, now: Instant) -> bool {
        self.translator.buttons_dirty || self.mouse_ready_at.reached(now)
    }

    /// Everything due sent; motion that came too soon is deferred.
    pub open spec fn remote_flushed(self, now: Instant) -> RouterView {
        let s = self.keys_flushed();
        if self.mouse_may_go(now) {
            s.mouse_flushed(now)
        } else if self.translator.motion_pending() && self.mouse_flush_at is None {
            RouterView { mouse_flush_at: Some(self.mouse_ready_at), ..s }
        } else {
            s
        }
    }

    /// The reports that sends.
    pub open spec fn remote_frames(self, now: Instant) -> Seq<ActionView> {
        self.key_frames() + (if self.mouse_may_go(now) {
            self.mouse_frames()
        } else {
            Seq::empty()
        })
    }

    /// An event handed to the hook task, if there is one.
    pub open spec fn hook_actions(self, event: HookEvent) -> Seq<ActionView> {
        if self.hooks {
            seq![ActionView::Hook { event }]
        } else {
            Seq::empty()
        }
    }

    /// What follows a local release.
    pub open spec fn resumed(self, next: Resume) -> (RouterView, Seq<ActionView>) {
        match next {
            Resume::Switch { slot, fire_hooks } => (
                RouterView { slot, ..self },
                seq![ActionView::Slot { slot }] + (if fire_hooks {
                    self.hook_actions(HookEvent::Slot(slot))
                } else {
                    Seq::empty()
                }),
            ),
            Resume::Macro { index } => (self, self.hook_actions(HookEvent::Macro(index))),
        }
    }

    /// A step without a local release.
    pub open spec fn done(self, actions: Seq<ActionView>) -> (RouterView, StepView) {
        (self, StepView { actions, release: None })
    }

    /// Local keys let go first, if there are any.
    pub open spec fn releasing(self, keys: Seq<u16>, next: Resume) -> (RouterView, StepView) {
        if keys.len() > 0 {
            (
                self,
                StepView { actions: Seq::empty(), release: Some(ReleaseView { keys, next }) },
            )
        } else {
            let (s, actions) = self.resumed(next);
            s.done(actions)
        }
    }

    /// A slot's combo was pressed.
    pub open spec fn switched(self, slot: u8, fire_hooks: bool, bound: Set<u8>) -> (
        RouterView,
        StepView,
    ) {
        if slot == self.slot {
            // A re-assert: repaint always, hooks only with Shift.
            self.done(
                (if self.lighting {
                    seq![ActionView::Lighting { event: RgbEvent::Repaint }]
                } else {
                    Seq::empty()
                }) + (if fire_hooks {
                    self.hook_actions(HookEvent::Slot(slot))
                } else {
                    Seq::empty()
                }),
            )
        } else if slot != LOCAL_SLOT && !bound.contains(slot) {
            // Unbound: a pairing window instead of a switch, and no hooks.
            self.done(seq![ActionView::Command { cmd: BtCmd::OpenPairingWindow { slot } }])
        } else if self.slot == LOCAL_SLOT {
            RouterView { local_held: Seq::empty(), ..self }.releasing(
                self.local_held,
                Resume::Switch { slot, fire_hooks },
            )
        } else {
            // Release everything on the host we leave, under its own slot.
            let left = RouterView {
                translator: translate::idle(),
                mouse_flush_at: None,
                ..self
            };
            let (s, actions) = left.resumed(Resume::Switch { slot, fire_hooks });
            s.done(
                frame_actions(self.slot, translate::release_reports(self.translator)) + actions,
            )
        }
    }

    /// A macro combo was pressed: the modifiers that formed it are let go on
    /// the active target, then the macro runs.
    pub open spec fn macro_run(self, index: usize, held_mods: Seq<u16>, now: Instant) -> (
        RouterView,
        StepView,
    ) {
        if self.slot == LOCAL_SLOT {
            RouterView { local_held: dropped_all(self.local_held, held_mods), ..self }.releasing(
                found_of(self.local_held, held_mods),
                Resume::Macro { index },
            )
        } else {
            let s = RouterView { translator: keys_released(self.translator, held_mods), ..self };
            s.remote_flushed(now).done(
                s.remote_frames(now) + self.hook_actions(HookEvent::Macro(index)),
            )
        }
    }

    /// A key event after the hotkeys had their say.
    pub open spec fn key_judged(
        self,
        verdict: VerdictView,
        event: InputEvent,
        now: Instant,
        bound: Set<u8>,
    ) -> (RouterView, StepView) {
        match verdict {
            VerdictView::Swallow => self.done(Seq::empty()),
            VerdictView::SwitchTo { slot, fire_hooks } => self.switched(slot, fire_hooks, bound),
            VerdictView::RunMacro { index, held_mods } => self.macro_run(
                index as usize,
                held_mods,
                now,
            ),
            VerdictView::Pass => if self.slot == LOCAL_SLOT {
                RouterView {
                    local_held: if event.value == 1 {
                        added(self.local_held, event.code)
                    } else if event.value == 0 {
                        dropped(self.local_held, event.code)
                    } else {
                        self.local_held
                    },
                    ..self
                }.done(seq![ActionView::Emit { event }])
            } else {
                RouterView {
                    translator: translate::after_key(self.translator, event.code, event.value),
                    ..self
                }.done(Seq::empty())
            },
        }
    }

    /// One event dispatched.
    pub open spec fn dispatched(self, event: InputEvent, now: Instant, bound: Set<u8>) -> (
        RouterView,
        StepView,
    ) {
        if event.kind == EventType::KEY {
            let (hotkeys, verdict) = hotkey::key_step(self.hotkeys, event.code, event.value);
            RouterView { hotkeys, ..self }.key_judged(verdict, event, now, bound)
        } else if event.kind == EventType::RELATIVE {
            if self.slot == LOCAL_SLOT {
                self.done(seq![ActionView::Emit { event }])
            } else {
                RouterView {
                    translator: translate::after_rel(self.translator, event.code, event.value),
                    ..self
                }.done(Seq::empty())
            }
        } else if event.kind == EventType::SYNCHRONIZATION && self.slot != LOCAL_SLOT {
            self.remote_flushed(now).done(self.remote_frames(now))
        } else {
            self.done(Seq::empty())
        }
    }

    /// The activity signal an event gives.
    pub open spec fn pinged(self, now: Instant) -> (RouterView, Seq<ActionView>) {
        if time::due(self.activity, now) {
            (
                RouterView {
                    activity: Some(
                        now.plus(Duration::of_millis(ACTIVITY_COALESCE_MS as int)),
                    ),
                    ..self
                },
                seq![ActionView::Ping { at: now }],
            )
        } else {
            (self, Seq::empty())
        }
    }

    /// The re-pair timer set by the combo key that is held. The local slot is
    /// skipped: there is nothing to pair with the hub itself.
    pub open spec fn hold_synced(self, now: Instant) -> RouterView {
        RouterView {
            repair_hold: match self.hotkeys.combo {
                Some((_, slot)) => if slot == LOCAL_SLOT {
                    None
                } else if self.repair_hold matches Some(hold) && hold.slot == slot {
                    self.repair_hold
                } else {
                    Some(
                        RepairHold {
                            slot,
                            at: now.plus(Duration::of_secs(REPAIR_HOLD_SECS as int)),
                            fired: false,
                        },
                    )
                },
                None => None,
            },
            ..self
        }
    }

    /// One event handled: activity, dispatch, re-pair timer.
    pub open spec fn handled(self, event: InputEvent, now: Instant, bound: Set<u8>) -> (
        RouterView,
        StepView,
    ) {
        let (a, pings) = self.pinged(now);
        let (b, step) = a.dispatched(event, now, bound);
        (
            b.hold_synced(now),
            StepView { actions: pings + step.actions, release: step.release },
        )
    }

    /// A local release is under way, and this is what may follow it.
    pub open spec fn awaits(self, next: Resume) -> bool {
        &&& self.wf()
        &&& self.slot == LOCAL_SLOT
        &&& next is Switch ==> self.local_held.len() == 0
    }

    /// The event can be accumulated: remote motion fits its counters.
    pub open spec fn takes(self, event: InputEvent) -> bool {
        event.kind == EventType::RELATIVE && self.slot != LOCAL_SLOT ==> translate::motion_fits(
            translate::after_rel(self.translator, event.code, event.value),
        )
    }
}

// ---------------------------------------------------------------------------
// Doing it
// ---------------------------------------------------------------------------

/// Append reports as actions for a slot.
fn put_frames(actions: &mut Vec<Action>, slot: u8, frames: Vec<HidFrame>)
    ensures
        action_views(final(actions)@) == action_views(old(actions)@) + frame_actions(
            slot,
            hid::frames(frames@),
        ),
{
    let ghost start = action_views(actions@);
    let ghost all = hid::frames(frames@);
    let mut i: usize = 0;
    assert(action_views(actions@) =~= start + frame_actions(slot, all.take(0)));
    while i < frames.len()
        invariant
            i <= frames@.len(),
            all == hid::frames(frames@),
            action_views(actions@) == start + frame_actions(slot, all.take(i as int)),
        decreases frames@.len() - i,
    {
        let ghost before = actions@;
        let action = Action::Frame { slot, frame: frames[i] };
        actions.push(action);
        assert(action_views(actions@) =~= action_views(before).push(action@));
        assert(action_views(actions@) =~= start + frame_actions(slot, all.take(i + 1)));
        i = i + 1;
    }
    assert(all.take(i as int) =~= all);
}

/// Append one action.
fn put(actions: &mut Vec<Action>, action: Action)
    ensures
        action_views(final(actions)@) == action_views(old(actions)@).push(action@),
{
    actions.push(action);
    assert(action_views(actions@) =~= action_views(old(actions)@).push(action@));
}

/// Where a key stands in a list without duplicates.
fn find_key(list: &Vec<u16>, key: u16) -> (r: Option<usize>)
    requires
        list@.no_duplicates(),
    ensures
        r matches Some(i) ==> list@.contains(key) && i < list@.len() && i == list@.index_of(key),
        r is None ==> !list@.contains(key),
{
    let mut i: usize = 0;
    while i < list.len()
        invariant
            i <= list@.len(),
            list@.no_duplicates(),
            forall|j: int| 0 <= j < i ==> list@[j] != key,
        decreases list@.len() - i,
    {
        if list[i] == key {
            assert(list@.contains(key));
            return Some(i);
        }
        i = i + 1;
    }
    None
}

/// Dropping a key keeps a list free of duplicates, and rids it of the key.
proof fn lemma_dropped(list: Seq<u16>, key: u16)
    requires
        list.no_duplicates(),
    ensures
        dropped(list, key).no_duplicates(),
        !dropped(list, key).contains(key),
        forall|k: u16| k != key ==> (dropped(list, key).contains(k) <==> list.contains(k)),
{
    if list.contains(key) {
        let i = list.index_of(key);
        let left = list.remove(i);
        assert forall|j: int| 0 <= j < left.len() implies #[trigger] left[j] == (if j < i {
            list[j]
        } else {
            list[j + 1]
        }) by {}
        assert forall|k: u16| k != key implies (left.contains(k) <==> list.contains(k)) by {
            if list.contains(k) {
                let j = choose|j: int| 0 <= j < list.len() && list[j] == k;
                if j < i {
                    assert(left[j] == k);
                } else {
                    assert(left[j - 1] == k);
                }
            }
            if left.contains(k) {
                let j = choose|j: int| 0 <= j < left.len() && left[j] == k;
                if j < i {
                    assert(list[j] == k);
                } else {
                    assert(list[j + 1] == k);
                }
            }
        }
    }
}

proof fn lemma_added(list: Seq<u16>, key: u16)
    requires
        list.no_duplicates(),
    ensures
        added(list, key).no_duplicates(),
{
}

proof fn lemma_dropped_all(list: Seq<u16>, keys: Seq<u16>)
    requires
        list.no_duplicates(),
    ensures
        dropped_all(list, keys).no_duplicates(),
    decreases keys.len(),
{
    if keys.len() > 0 {
        lemma_dropped_all(list, keys.drop_last());
        lemma_dropped(dropped_all(list, keys.drop_last()), keys.last());
    }
}

/// Letting keys go keeps the translator well-formed and its motion as it was.
proof fn lemma_keys_released(s: TranslatorState, keys: Seq<u16>)
    requires
        s.wf(),
    ensures
        keys_released(s, keys).wf(),
        keys_released(s, keys).dx == s.dx,
        keys_released(s, keys).dy == s.dy,
        keys_released(s, keys).wheel == s.wheel,
    decreases keys.len(),
{
    if keys.len() > 0 {
        lemma_keys_released(s, keys.drop_last());
        translate::law_key_keeps_wf(keys_released(s, keys.drop_last()), keys.last(), 0);
    }
}

impl Router {
    /// `slot` is the one to start on (see `state::load`). `macros` are the
    /// combos in config order; the hotkeys report one by its index. `hooks` and
    /// `lighting` say whether anybody listens.
    pub fn new(
        slot: u8,
        macros: Vec<KeyCombo>,
        mouse_rate_hz: u32,
        hooks: bool,
        lighting: bool,
        now: Instant,
    ) -> (r: Self)
        ensures
            r@ == (RouterView {
                slot,
                hotkeys: HotkeyState {
                    macros: macros@,
                    held: Set::empty(),
                    suppressed: Set::empty(),
                    combo: None,
                },
                translator: translate::idle(),
                hooks,
                activity: if lighting {
                    Some(now)
                } else {
                    None
                },
                lighting,
                local_held: Seq::empty(),
                dropped_frames: 0,
                mouse_interval: interval_of(mouse_rate_hz),
                mouse_ready_at: now,
                mouse_flush_at: None,
                repair_hold: None,
            }),
            r@.wf(),
    {
        let rate: u32 = if mouse_rate_hz < 1 {
            1
        } else {
            mouse_rate_hz
        };
        let mouse_interval = Duration { nanos: (1_000_000 / rate) as u128 * 1000 };
        let activity = if lighting {
            Some(Activity::new(now))
        } else {
            None
        };
        let r = Router {
            slot,
            fsm: HotkeyFsm::with_macros(macros),
            translator: Translator::new(),
            hooks,
            activity,
            lighting,
            local_held: Vec::new(),
            dropped_frames: 0,
            mouse_interval,
            mouse_ready_at: now,
            mouse_flush_at: None,
            repair_hold: None,
        };
        assert(r@.local_held =~= Seq::empty());
        r
    }

    /// The active slot.
    pub fn active_slot(&self) -> (r: u8)
        ensures
            r == self@.slot,
    {
        self.slot
    }

    /// When deferred motion is to be flushed, if any is.
    pub fn flush_deadline(&self) -> (r: Option<Instant>)
        ensures
            r == self@.mouse_flush_at,
    {
        self.mouse_flush_at
    }

    /// When a held combo turns into a re-pair request, if one is held that has
    /// not fired yet.
    pub fn repair_deadline(&self) -> (r: Option<Instant>)
        ensures
            r == match self@.repair_hold {
                Some(hold) => if hold.fired {
                    None
                } else {
                    Some(hold.at)
                },
                None => None,
            },
    {
        match self.repair_hold {
            Some(hold) => if hold.fired {
                None
            } else {
                Some(hold.at)
            },
            None => None,
        }
    }

    /// Whether the event's motion, if it has any for a remote host, fits what
    /// is accumulated already.
    pub fn fits(&self, event: &InputEvent) -> (r: bool)
        ensures
            r == self@.takes(*event),
    {
        event.kind != EventType::RELATIVE || self.slot == LOCAL_SLOT || self.translator.fits(
            event.code,
            event.value,
        )
    }

    /// Take one input event in. Every event counts as activity, including the
    /// combos that the hotkeys swallow: the user pressing Ctrl+Alt+F3 is as
    /// present as one typing a letter.
    pub fn handle(&mut self, event: InputEvent, now: Instant, bindings: &Bindings) -> (r: Step)
        requires
            old(self)@.wf(),
            old(self)@.takes(event),
            now.in_range(),
        ensures
            (final(self)@, r@) == old(self)@.handled(event, now, bindings@.dom()),
            final(self)@.wf(),
            r@.release matches Some(release) ==> final(self)@.awaits(release.next),
    {
        let ghost start = self@;
        let ghost bound = bindings@.dom();
        proof {
            law_handling_keeps_wf(start, event, now, bound);
        }
        let mut actions: Vec<Action> = Vec::new();
        assert(action_views(actions@) =~= Seq::empty());
        if let Some(activity) = &mut self.activity {
            if activity.ping(now) {
                put(&mut actions, Action::Ping { at: now });
            }
        }
        let ghost pings = action_views(actions@);
        assert(self@ =~= start.pinged(now).0);
        assert(pings =~= start.pinged(now).1);
        let mut step = self.dispatch(event, now, bindings);
        let ghost more = step.actions@;
        actions.append(&mut step.actions);
        assert(action_views(actions@) =~= pings + action_views(more));
        self.sync_repair_hold(now);
        Step { actions, release: step.release }
    }

    /// One event dispatched to the active target.
    fn dispatch(&mut self, event: InputEvent, now: Instant, bindings: &Bindings) -> (r: Step)
        requires
            old(self)@.wf(),
            old(self)@.takes(event),
            now.in_range(),
        ensures
            (final(self)@, r@) == old(self)@.dispatched(event, now, bindings@.dom()),
    {
        let ghost start = self@;
        if event.kind == EventType::KEY {
            let verdict = self.fsm.on_key(event.code, event.value);
            let ghost judged = self@;
            assert(judged =~= (RouterView {
                hotkeys: hotkey::key_step(start.hotkeys, event.code, event.value).0,
                ..start
            }));
            match verdict {
                Verdict::Swallow => self.nothing(),
                Verdict::SwitchTo { slot, fire_hooks } => self.switch_to(
                    slot,
                    fire_hooks,
                    bindings,
                ),
                Verdict::RunMacro { index, held_mods } => self.run_macro(index, &held_mods, now),
                Verdict::Pass => {
                    if self.slot == LOCAL_SLOT {
                        if event.value == 1 {
                            let at = find_key(&self.local_held, event.code);
                            if at.is_none() {
                                self.local_held.push(event.code);
                            }
                        } else if event.value == 0 {
                            if let Some(i) = find_key(&self.local_held, event.code) {
                                self.local_held.remove(i);
                            }
                        }
                        self.emit(event)
                    } else {
                        self.translator.handle_key(event.code, event.value);
                        self.nothing()
                    }
                },
            }
        } else if event.kind == EventType::RELATIVE {
            if self.slot == LOCAL_SLOT {
                self.emit(event)
            } else {
                self.translator.handle_rel(event.code, event.value);
                self.nothing()
            }
        } else if event.kind == EventType::SYNCHRONIZATION && self.slot != LOCAL_SLOT {
            let mut actions: Vec<Action> = Vec::new();
            assert(action_views(actions@) =~= Seq::empty());
            self.flush_remote(now, &mut actions);
            assert(action_views(actions@) =~= start.remote_frames(now));
            Step { actions, release: None }
        } else {
            // Local side needs no SYN handling: the virtual devices append
            // their own.
            self.nothing()
        }
    }

    /// A step that does nothing.
    fn nothing(&self) -> (r: Step)
        ensures
            (self@, r@) == self@.done(Seq::empty()),
    {
        let actions: Vec<Action> = Vec::new();
        assert(action_views(actions@) =~= Seq::empty());
        Step { actions, release: None }
    }

    /// A step that re-injects an event locally.
    fn emit(&self, event: InputEvent) -> (r: Step)
        ensures
            (self@, r@) == self@.done(seq![ActionView::Emit { event }]),
    {
        let mut actions: Vec<Action> = Vec::new();
        assert(action_views(actions@) =~= Seq::empty());
        put(&mut actions, Action::Emit { event });
        assert(action_views(actions@) =~= seq![ActionView::Emit { event }]);
        Step { actions, release: None }
    }

    /// Pace mouse motion: send immediately if the link has been quiet for an
    /// interval (no added latency for the first movement), otherwise keep
    /// accumulating and flush when the interval elapses. Button changes and
    /// keyboard reports always go out immediately.
    fn flush_remote(&mut self, now: Instant, actions: &mut Vec<Action>)
        requires
            old(self)@.translator.wf(),
            old(self)@.mouse_interval.nanos <= 1_000_000_000,
            now.in_range(),
        ensures
            final(self)@ == old(self)@.remote_flushed(now),
            action_views(final(actions)@) == action_views(old(actions)@) + old(
                self,
            )@.remote_frames(now),
    {
        let ghost start = self@;
        let ghost listed = action_views(actions@);
        let keyboard = self.translator.flush_keyboard();
        put_frames(actions, self.slot, keyboard);
        let consumer = self.translator.flush_consumer();
        put_frames(actions, self.slot, consumer);
        assert(self@ =~= start.keys_flushed());
        assert(action_views(actions@) =~= listed + start.key_frames());
        if self.translator.mouse_buttons_dirty() || self.mouse_ready_at.is_reached(now) {
            self.flush_mouse(now, actions);
            assert(action_views(actions@) =~= listed + start.remote_frames(now));
        } else if self.translator.mouse_motion_pending() && self.mouse_flush_at.is_none() {
            self.mouse_flush_at = Some(self.mouse_ready_at);
            assert(self@ =~= start.remote_flushed(now));
            assert(action_views(actions@) =~= listed + start.remote_frames(now));
        } else {
            assert(action_views(actions@) =~= listed + start.remote_frames(now));
        }
    }

    fn flush_mouse(&mut self, now: Instant, actions: &mut Vec<Action>)
        requires
            old(self)@.mouse_interval.nanos <= 1_000_000_000,
            now.in_range(),
        ensures
            final(self)@ == old(self)@.mouse_flushed(now),
            action_views(final(actions)@) == action_views(old(actions)@) + old(
                self,
            )@.mouse_frames(),
    {
        let ghost start = self@;
        self.mouse_flush_at = None;
        let frames = self.translator.flush_mouse();
        assert(hid::frames(frames@).len() == frames@.len());
        if frames.len() == 0 {
            assert(self@ =~= start.mouse_flushed(now));
            assert(action_views(actions@) =~= action_views(actions@) + start.mouse_frames());
            return;
        }
        self.mouse_ready_at = now.after(self.mouse_interval);
        put_frames(actions, self.slot, frames);
        assert(self@ =~= start.mouse_flushed(now));
    }

    /// The deferred motion's deadline passed.
    pub fn flush_mouse_now(&mut self, now: Instant) -> (r: Vec<Action>)
        requires
            old(self)@.wf(),
            now.in_range(),
        ensures
            final(self)@ == old(self)@.mouse_flushed(now),
            action_views(r@) == old(self)@.mouse_frames(),
            final(self)@.wf(),
    {
        let ghost start = self@;
        let mut actions: Vec<Action> = Vec::new();
        assert(action_views(actions@) =~= Seq::empty());
        self.flush_mouse(now, &mut actions);
        assert(action_views(actions@) =~= start.mouse_frames());
        assert(start.slot == LOCAL_SLOT ==> self@.translator =~= translate::idle());
        actions
    }

    /// Arm (or disarm) the re-pair timer from the physically held combo key.
    /// The local slot is skipped: there is nothing to pair with the hub itself.
    fn sync_repair_hold(&mut self, now: Instant)
        requires
            now.in_range(),
        ensures
            final(self)@ == old(self)@.hold_synced(now),
    {
        match self.fsm.combo_slot_held() {
            Some(slot) => {
                if slot == LOCAL_SLOT {
                    self.repair_hold = None;
                } else {
                    let same = match self.repair_hold {
                        Some(hold) => hold.slot == slot,
                        None => false,
                    };
                    if !same {
                        self.repair_hold = Some(
                            RepairHold {
                                slot,
                                at: now.after(Duration::from_secs(REPAIR_HOLD_SECS)),
                                fired: false,
                            },
                        );
                    }
                }
            },
            None => {
                self.repair_hold = None;
            },
        }
        assert(self@ =~= old(self)@.hold_synced(now));
    }

    /// The combo has been held long enough: ask the Bluetooth side to drop the
    /// slot's binding and pairing and reopen a pairing window.
    pub fn fire_repair(&mut self) -> (r: Option<BtCmd>)
        ensures
            r == match old(self)@.repair_hold {
                Some(hold) => Some(BtCmd::RepairSlot { slot: hold.slot }),
                None => None,
            },
            final(self)@ == (RouterView {
                repair_hold: match old(self)@.repair_hold {
                    Some(hold) => Some(RepairHold { fired: true, ..hold }),
                    None => None,
                },
                ..old(self)@
            }),
            old(self)@.wf() ==> final(self)@.wf(),
    {
        match self.repair_hold {
            Some(hold) => {
                self.repair_hold = Some(RepairHold { slot: hold.slot, at: hold.at, fired: true });
                Some(BtCmd::RepairSlot { slot: hold.slot })
            },
            None => None,
        }
    }

    /// `fire_hooks` is the Shift in Ctrl+Alt+Shift+F<n>. Switching is otherwise
    /// silent: moving the keyboard to a machine and triggering the side effect
    /// that belongs to it are separate wishes, and only the second one is worth
    /// asking for explicitly.
    fn switch_to(&mut self, slot: u8, fire_hooks: bool, bindings: &Bindings) -> (r: Step)
        requires
            old(self)@.translator.wf(),
        ensures
            (final(self)@, r@) == old(self)@.switched(slot, fire_hooks, bindings@.dom()),
    {
        let ghost start = self@;
        let mut actions: Vec<Action> = Vec::new();
        assert(action_views(actions@) =~= Seq::empty());
        // A combo pressed for the slot you are already on is a re-assert, not a
        // switch: nothing about the routing changes, but everything that hangs
        // off the slot is asserted again. That is the retry for a side effect
        // that didn't take the first time — an IR command the HDMI switch
        // missed, or a device that took half a color update and left the
        // keyboard two-tone.
        if slot == self.slot {
            // Lighting always: it is the half of the re-assert with no side
            // effects, so it needs no opt-in. Hooks only with Shift, as ever.
            if self.lighting {
                put(&mut actions, Action::Lighting { event: RgbEvent::Repaint });
            }
            if fire_hooks {
                self.notify_hooks(HookEvent::Slot(slot), &mut actions);
            }
            assert(action_views(actions@) =~= start.switched(
                slot,
                fire_hooks,
                bindings@.dom(),
            ).1.actions);
            return Step { actions, release: None };
        }
        if slot != LOCAL_SLOT && !bindings.contains_key(&slot) {
            // Unbound slot: open a pairing window instead of switching. The
            // combo was already swallowed by the hotkeys either way. No hooks
            // even with Shift — the slot never became active.
            put(&mut actions, Action::Command { cmd: BtCmd::OpenPairingWindow { slot } });
            assert(action_views(actions@) =~= seq![
                ActionView::Command { cmd: BtCmd::OpenPairingWindow { slot } },
            ]);
            return Step { actions, release: None };
        }
        // Release everything on the target we are leaving.
        if self.slot == LOCAL_SLOT {
            let mut keys: Vec<u16> = Vec::new();
            std::mem::swap(&mut keys, &mut self.local_held);
            assert(self@ =~= (RouterView { local_held: Seq::empty(), ..start }));
            self.release_then(keys, Resume::Switch { slot, fire_hooks })
        } else {
            self.mouse_flush_at = None;
            let frames = self.translator.release_all();
            put_frames(&mut actions, self.slot, frames);
            let ghost frames_listed = action_views(actions@);
            assert(frames_listed =~= frame_actions(
                start.slot,
                translate::release_reports(start.translator),
            ));
            assert(self@ =~= (RouterView {
                translator: translate::idle(),
                mouse_flush_at: None,
                ..start
            }));
            let mut more = self.resume(Resume::Switch { slot, fire_hooks });
            let ghost rest = more@;
            actions.append(&mut more);
            assert(action_views(actions@) =~= frames_listed + action_views(rest));
            Step { actions, release: None }
        }
    }

    /// Let local keys go first, if there are any.
    fn release_then(&mut self, keys: Vec<u16>, next: Resume) -> (r: Step)
        ensures
            (final(self)@, r@) == old(self)@.releasing(keys@, next),
    {
        let none: Vec<Action> = Vec::new();
        assert(action_views(none@) =~= Seq::empty());
        if keys.len() != 0 {
            return Step { actions: none, release: Some(Release { keys, next }) };
        }
        let actions = self.resume(next);
        Step { actions, release: None }
    }

    /// The local keys of a [`Release`] have been let go: what follows.
    pub fn resume(&mut self, next: Resume) -> (r: Vec<Action>)
        ensures
            (final(self)@, action_views(r@)) == old(self)@.resumed(next),
            old(self)@.awaits(next) ==> final(self)@.wf(),
    {
        let ghost start = self@;
        let mut actions: Vec<Action> = Vec::new();
        assert(action_views(actions@) =~= Seq::empty());
        match next {
            Resume::Switch { slot, fire_hooks } => {
                self.slot = slot;
                put(&mut actions, Action::Slot { slot });
                if fire_hooks {
                    self.notify_hooks(HookEvent::Slot(slot), &mut actions);
                }
            },
            Resume::Macro { index } => {
                self.notify_hooks(HookEvent::Macro(index), &mut actions);
            },
        }
        assert(self@ =~= start.resumed(next).0);
        assert(action_views(actions@) =~= start.resumed(next).1);
        actions
    }

    /// Hand an event to the hook task, if there is one. Hooks get events of
    /// their own rather than watching the slot: a fast 2→3→2 could otherwise
    /// drop an activation entirely. Missing one is harmless for lighting and a
    /// bug for a side effect.
    fn notify_hooks(&self, event: HookEvent, actions: &mut Vec<Action>)
        ensures
            action_views(final(actions)@) == action_views(old(actions)@) + self@.hook_actions(
                event,
            ),
    {
        let ghost listed = action_views(actions@);
        if self.hooks {
            put(actions, Action::Hook { event });
        }
        assert(action_views(actions@) =~= listed + self@.hook_actions(event));
    }

    /// A macro combo was pressed: same fire-and-forget hand-off as a hook, on
    /// whatever slot is active. The combo itself was swallowed by the hotkeys —
    /// but its modifiers were forwarded as pressed *before* the trigger made
    /// it a combo, and their releases will be swallowed too. A switch releases
    /// everything on the target it leaves; a macro leaves nothing, so release
    /// those modifiers here or the target keeps a phantom Ctrl held down.
    fn run_macro(&mut self, index: usize, held_mods: &Vec<u16>, now: Instant) -> (r: Step)
        requires
            old(self)@.translator.wf(),
            old(self)@.local_held.no_duplicates(),
            old(self)@.mouse_interval.nanos <= 1_000_000_000,
            now.in_range(),
        ensures
            (final(self)@, r@) == old(self)@.macro_run(index, held_mods@, now),
    {
        let ghost start = self@;
        let mut i: usize = 0;
        if self.slot == LOCAL_SLOT {
            let mut keys: Vec<u16> = Vec::new();
            assert(held_mods@.take(0) =~= Seq::empty());
            assert(keys@ =~= Seq::empty());
            while i < held_mods.len()
                invariant
                    i <= held_mods@.len(),
                    start.local_held.no_duplicates(),
                    self@ == (RouterView {
                        local_held: dropped_all(start.local_held, held_mods@.take(i as int)),
                        ..start
                    }),
                    keys@ == found_of(start.local_held, held_mods@.take(i as int)),
                decreases held_mods@.len() - i,
            {
                assert(held_mods@.take(i + 1).drop_last() =~= held_mods@.take(i as int));
                proof {
                    lemma_dropped_all(start.local_held, held_mods@.take(i as int));
                }
                if let Some(at) = find_key(&self.local_held, held_mods[i]) {
                    self.local_held.remove(at);
                    keys.push(held_mods[i]);
                }
                assert(self@ =~= (RouterView {
                    local_held: dropped_all(start.local_held, held_mods@.take(i + 1)),
                    ..start
                }));
                i = i + 1;
            }
            assert(held_mods@.take(i as int) =~= held_mods@);
            self.release_then(keys, Resume::Macro { index })
        } else {
            assert(held_mods@.take(0) =~= Seq::empty());
            while i < held_mods.len()
                invariant
                    i <= held_mods@.len(),
                    self@.translator.wf(),
                    self@ == (RouterView {
                        translator: keys_released(start.translator, held_mods@.take(i as int)),
                        ..start
                    }),
                decreases held_mods@.len() - i,
            {
                assert(held_mods@.take(i + 1).drop_last() =~= held_mods@.take(i as int));
                self.translator.handle_key(held_mods[i], 0);
                assert(self@ =~= (RouterView {
                    translator: keys_released(start.translator, held_mods@.take(i + 1)),
                    ..start
                }));
                i = i + 1;
            }
            assert(held_mods@.take(i as int) =~= held_mods@);
            let mut actions: Vec<Action> = Vec::new();
            assert(action_views(actions@) =~= Seq::empty());
            let ghost s = self@;
            self.flush_remote(now, &mut actions);
            assert(action_views(actions@) =~= s.remote_frames(now));
            self.notify_hooks(HookEvent::Macro(index), &mut actions);
            Step { actions, release: None }
        }
    }

    /// A report could not be handed to the Bluetooth side. How many that makes,
    /// where it is worth a warning.
    pub fn frame_dropped(&mut self) -> (r: Option<u64>)
        requires
            old(self)@.dropped_frames < u64::MAX,
        ensures
            final(self)@ == (RouterView {
                dropped_frames: old(self)@.dropped_frames + 1,
                ..old(self)@
            }),
            r == if (old(self)@.dropped_frames + 1) % 100 == 1 {
                Some((old(self)@.dropped_frames + 1) as u64)
            } else {
                None
            },
            old(self)@.wf() ==> final(self)@.wf(),
    {
        self.dropped_frames = self.dropped_frames + 1;
        if self.dropped_frames % 100 == 1 {
            Some(self.dropped_frames)
        } else {
            None
        }
    }

    /// How many reports could not be handed to the Bluetooth side.
    pub fn dropped_frames(&self) -> (r: u64)
        ensures
            r == self@.dropped_frames,
    {
        self.dropped_frames
    }
}

// ---------------------------------------------------------------------------
// Laws
// ---------------------------------------------------------------------------

/// Every event keeps the state well-formed, and ready for what follows a local
/// release where it asks for one.
pub proof fn law_handling_keeps_wf(s: RouterView, event: InputEvent, now: Instant, bound: Set<u8>)
    requires
        s.wf(),
        s.takes(event),
    ensures
        s.handled(event, now, bound).0.wf(),
        s.handled(event, now, bound).1.release matches Some(release) ==> s.handled(
            event,
            now,
            bound,
        ).0.awaits(release.next),
{
    let a = s.pinged(now).0;
    if event.kind == EventType::KEY {
        hotkey::law_step_keeps_wf(a.hotkeys, event.code, event.value);
        translate::law_key_keeps_wf(a.translator, event.code, event.value);
        lemma_dropped(a.local_held, event.code);
        lemma_added(a.local_held, event.code);
        let (hotkeys, verdict) = hotkey::key_step(a.hotkeys, event.code, event.value);
        if let VerdictView::RunMacro { index, held_mods } = verdict {
            lemma_dropped_all(a.local_held, held_mods);
            lemma_keys_released(a.translator, held_mods);
        }
    }
}

/// No action asks for hook or macro commands.
pub open spec fn no_hooks(actions: Seq<ActionView>) -> bool {
    forall|i: int| 0 <= i < actions.len() ==> !((#[trigger] actions[i]) is Hook)
}

/// Every report among the actions is for this slot.
pub open spec fn frames_only_for(actions: Seq<ActionView>, slot: u8) -> bool {
    forall|i: int|
        0 <= i < actions.len() ==> ((#[trigger] actions[i]) matches ActionView::Frame {
            slot: tag,
            ..
        } ==> tag == slot)
}

/// No action reaches the local session.
pub open spec fn no_emits(actions: Seq<ActionView>) -> bool {
    forall|i: int| 0 <= i < actions.len() ==> !((#[trigger] actions[i]) is Emit)
}

/// No action sends a report.
pub open spec fn no_frames(actions: Seq<ActionView>) -> bool {
    forall|i: int| 0 <= i < actions.len() ==> !((#[trigger] actions[i]) is Frame)
}

/// Reports carry the slot that was active when the event came: the releases of
/// a switch reach the host being left, not the new one.
pub proof fn law_frames_go_to_the_active_slot(
    s: RouterView,
    event: InputEvent,
    now: Instant,
    bound: Set<u8>,
)
    ensures
        frames_only_for(s.handled(event, now, bound).1.actions, s.slot),
{
}

/// While the local slot is active no report leaves the hub; while a remote one
/// is, nothing is injected locally.
pub proof fn law_events_go_to_one_side(
    s: RouterView,
    event: InputEvent,
    now: Instant,
    bound: Set<u8>,
)
    ensures
        s.slot == LOCAL_SLOT ==> no_frames(s.handled(event, now, bound).1.actions),
        s.slot != LOCAL_SLOT ==> no_emits(s.handled(event, now, bound).1.actions)
            && s.handled(event, now, bound).1.release is None,
{
    let a = s.pinged(now).0;
    let step = a.dispatched(event, now, bound).1;
    if s.slot == LOCAL_SLOT {
        lemma_local_side(a, event, now, bound);
        assert(no_frames(s.pinged(now).1 + step.actions));
    } else {
        lemma_remote_side(a, event, now, bound);
        assert(no_emits(s.pinged(now).1 + step.actions));
    }
}

proof fn lemma_local_side(s: RouterView, event: InputEvent, now: Instant, bound: Set<u8>)
    requires
        s.slot == LOCAL_SLOT,
    ensures
        no_frames(s.dispatched(event, now, bound).1.actions),
{
    if event.kind == EventType::KEY {
        let (hotkeys, verdict) = hotkey::key_step(s.hotkeys, event.code, event.value);
        let judged = RouterView { hotkeys, ..s };
        match verdict {
            VerdictView::Swallow => {},
            VerdictView::Pass => {},
            VerdictView::SwitchTo { slot, fire_hooks } => {
                assert(no_frames(judged.switched(slot, fire_hooks, bound).1.actions));
            },
            VerdictView::RunMacro { index, held_mods } => {
                assert(no_frames(judged.macro_run(index as usize, held_mods, now).1.actions));
            },
        }
    }
}

proof fn lemma_remote_side(s: RouterView, event: InputEvent, now: Instant, bound: Set<u8>)
    requires
        s.slot != LOCAL_SLOT,
    ensures
        no_emits(s.dispatched(event, now, bound).1.actions),
        s.dispatched(event, now, bound).1.release is None,
{
    if event.kind == EventType::KEY {
        let (hotkeys, verdict) = hotkey::key_step(s.hotkeys, event.code, event.value);
        let judged = RouterView { hotkeys, ..s };
        match verdict {
            VerdictView::Swallow => {},
            VerdictView::Pass => {},
            VerdictView::SwitchTo { slot, fire_hooks } => {
                assert(no_emits(judged.switched(slot, fire_hooks, bound).1.actions));
            },
            VerdictView::RunMacro { index, held_mods } => {
                assert(no_emits(judged.macro_run(index as usize, held_mods, now).1.actions));
            },
        }
    } else {
        assert(no_emits(s.remote_frames(now)));
    }
}

/// Leaving a remote host lets everything go there first: the reports that
/// release all it holds, under its own slot, then the switch.
pub proof fn law_switch_releases_the_host_left(
    s: RouterView,
    slot: u8,
    fire_hooks: bool,
    bound: Set<u8>,
)
    requires
        s.slot != LOCAL_SLOT,
        slot != s.slot,
        slot == LOCAL_SLOT || bound.contains(slot),
    ensures
        ({
            let (after, step) = s.switched(slot, fire_hooks, bound);
            let released = frame_actions(s.slot, translate::release_reports(s.translator));
            &&& after.slot == slot
            &&& after.translator == translate::idle()
            &&& after.mouse_flush_at is None
            &&& step.release is None
            &&& step.actions.take(released.len() as int) == released
            &&& step.actions[released.len() as int] == (ActionView::Slot { slot })
        }),
{
    let released = frame_actions(s.slot, translate::release_reports(s.translator));
    let step = s.switched(slot, fire_hooks, bound).1;
    assert(step.actions.take(released.len() as int) =~= released);
}

/// Leaving the hub itself lets go of every key held there before the switch
/// happens: all of them are in the release, and none is remembered.
pub proof fn law_switch_releases_the_hub(
    s: RouterView,
    slot: u8,
    fire_hooks: bool,
    bound: Set<u8>,
)
    requires
        s.slot == LOCAL_SLOT,
        slot != LOCAL_SLOT,
        bound.contains(slot),
    ensures
        ({
            let (after, step) = s.switched(slot, fire_hooks, bound);
            &&& after.local_held.len() == 0
            &&& s.local_held.len() > 0 ==> after.slot == s.slot && step.actions.len() == 0 && (
            step.release matches Some(r) && r.keys == s.local_held && r.next == (Resume::Switch {
                slot,
                fire_hooks,
            }))
            &&& s.local_held.len() == 0 ==> after.slot == slot && step.release is None
        }),
{
}

/// A plain switch combo never runs anything.
pub proof fn law_plain_switch_is_silent(s: RouterView, slot: u8, bound: Set<u8>)
    ensures
        no_hooks(s.switched(slot, false, bound).1.actions),
        s.switched(slot, false, bound).1.release matches Some(r) ==> r.next == (Resume::Switch {
            slot,
            fire_hooks: false,
        }) && no_hooks(s.switched(slot, false, bound).0.resumed(r.next).1),
{
}

/// A switch combo with Shift runs the slot's hooks once the slot is active, if
/// any are configured.
pub proof fn law_shift_switch_fires_hooks(s: RouterView, slot: u8)
    requires
        s.hooks,
    ensures
        s.resumed(Resume::Switch { slot, fire_hooks: true }).1 == seq![
            ActionView::Slot { slot },
            ActionView::Hook { event: HookEvent::Slot(slot) },
        ],
        s.resumed(Resume::Switch { slot, fire_hooks: true }).0.slot == slot,
{
    assert(s.resumed(Resume::Switch { slot, fire_hooks: true }).1 =~= seq![
        ActionView::Slot { slot },
        ActionView::Hook { event: HookEvent::Slot(slot) },
    ]);
}

/// An unbound slot opens a pairing window instead: no switch, no hooks, even
/// with Shift.
pub proof fn law_unbound_slot_opens_a_window(
    s: RouterView,
    slot: u8,
    fire_hooks: bool,
    bound: Set<u8>,
)
    requires
        slot != s.slot,
        slot != LOCAL_SLOT,
        !bound.contains(slot),
    ensures
        s.switched(slot, fire_hooks, bound) == s.done(
            seq![ActionView::Command { cmd: BtCmd::OpenPairingWindow { slot } }],
        ),
{
}

/// The combo of the active slot is a re-assert: the state stays as it is, the
/// lighting is repainted, and the hooks run again with Shift.
pub proof fn law_reassert_changes_nothing(s: RouterView, fire_hooks: bool, bound: Set<u8>)
    ensures
        s.switched(s.slot, fire_hooks, bound).0 == s,
        s.switched(s.slot, fire_hooks, bound).1.release is None,
        s.lighting ==> s.switched(s.slot, fire_hooks, bound).1.actions[0] == (ActionView::Lighting {
            event: RgbEvent::Repaint,
        }),
        s.hooks && fire_hooks ==> s.switched(s.slot, fire_hooks, bound).1.actions.last() == (
        ActionView::Hook { event: HookEvent::Slot(s.slot) }),
{
}

/// Motion is paced: reports that carry only motion go out no sooner than an
/// interval after the last ones, and motion that comes too soon is neither sent
/// nor lost but flushed when the interval is over.
pub proof fn law_motion_is_paced(s: RouterView, now: Instant)
    requires
        !s.translator.buttons_dirty,
        !s.mouse_ready_at.reached(now),
    ensures
        s.remote_frames(now) =~= s.key_frames(),
        s.remote_flushed(now).translator.dx == s.translator.dx,
        s.remote_flushed(now).translator.dy == s.translator.dy,
        s.remote_flushed(now).translator.wheel == s.translator.wheel,
        s.translator.motion_pending() && s.mouse_flush_at is None ==> s.remote_flushed(
            now,
        ).mouse_flush_at == Some(s.mouse_ready_at),
{
}

/// Mouse reports that go out push the next ones an interval back; button
/// changes never wait.
pub proof fn law_sent_motion_restarts_the_interval(s: RouterView, now: Instant)
    ensures
        s.translator.buttons_dirty || s.translator.motion_pending() ==> s.mouse_flushed(
            now,
        ).mouse_ready_at == now.plus(s.mouse_interval),
        s.translator.buttons_dirty ==> s.mouse_may_go(now),
        !s.mouse_flushed(now).translator.motion_pending(),
{
    translate::law_motion_is_never_lost(
        s.translator.buttons,
        s.translator.dx,
        s.translator.dy,
        s.translator.wheel,
    );
}

/// The re-pair timer runs exactly while the combo of a remote slot is held,
/// and one that has fired stays fired until the key is let go or another
/// slot's combo is pressed.
pub proof fn law_repair_hold_follows_the_combo(s: RouterView, now: Instant)
    ensures
        s.hold_synced(now).repair_hold is Some <==> (s.hotkeys.combo matches Some((_, slot)) && slot
            != LOCAL_SLOT),
        s.hold_synced(now).repair_hold matches Some(hold) ==> Some(hold.slot)
            == match s.hotkeys.combo {
            Some((_, slot)) => Some(slot),
            None => None,
        },
        s.repair_hold is Some && s.hotkeys.combo is Some && s.repair_hold->0.slot
            == (s.hotkeys.combo->0).1 && s.repair_hold->0.slot != LOCAL_SLOT ==> s.hold_synced(now).repair_hold
            == s.repair_hold,
{
}

/// A macro on a remote slot lets its modifiers go there and switches nothing.
pub proof fn law_macro_switches_nothing(
    s: RouterView,
    index: usize,
    held_mods: Seq<u16>,
    now: Instant,
)
    ensures
        s.macro_run(index, held_mods, now).0.slot == s.slot,
        s.slot == LOCAL_SLOT ==> s.macro_run(index, held_mods, now).0.local_held == dropped_all(
            s.local_held,
            held_mods,
        ),
        s.slot != LOCAL_SLOT ==> s.macro_run(index, held_mods, now).1.release is None,
{
}

/// What a macro lets go locally is exactly what of its modifiers was held.
pub proof fn law_macro_releases_what_was_held(list: Seq<u16>, keys: Seq<u16>, k: u16)
    requires
        list.no_duplicates(),
    ensures
        found_of(list, keys).contains(k) <==> list.contains(k) && keys.contains(k),
        dropped_all(list, keys).contains(k) <==> list.contains(k) && !keys.contains(k),
    decreases keys.len(),
{
    if keys.len() > 0 {
        let init = keys.drop_last();
        law_macro_releases_what_was_held(list, init, k);
        law_macro_releases_what_was_held(list, init, keys.last());
        lemma_dropped_all(list, init);
        lemma_dropped(dropped_all(list, init), keys.last());
        assert(keys.contains(k) <==> init.contains(k) || k == keys.last()) by {
            if keys.contains(k) {
                let i = choose|i: int| 0 <= i < keys.len() && keys[i] == k;
                if i < init.len() {
                    assert(init[i] == k);
                }
            }
            if init.contains(k) {
                let i = choose|i: int| 0 <= i < init.len() && init[i] == k;
                assert(keys[i] == k);
            }
            assert(keys[keys.len() - 1] == keys.last());
        }
        let before = found_of(list, init);
        let after = found_of(list, keys);
        if dropped_all(list, init).contains(keys.last()) {
            assert(after.contains(k) <==> before.contains(k) || k == keys.last()) by {
                if after.contains(k) {
                    let i = choose|i: int| 0 <= i < after.len() && after[i] == k;
                    if i < before.len() {
                        assert(before[i] == k);
                    }
                }
                if before.contains(k) {
                    let i = choose|i: int| 0 <= i < before.len() && before[i] == k;
                    assert(after[i] == k);
                }
                assert(after[before.len() as int] == keys.last());
            }
        }
    }
}

// ---------------------------------------------------------------------------
// Where each event ends up
// ---------------------------------------------------------------------------

/// The verdict of the hotkeys on an event.
pub open spec fn verdict_on(s: RouterView, event: InputEvent) -> VerdictView {
    hotkey::key_step(s.hotkeys, event.code, event.value).1
}

/// How often an event is injected locally.
pub open spec fn emitted(actions: Seq<ActionView>, event: InputEvent) -> nat
    decreases actions.len(),
{
    if actions.len() == 0 {
        0
    } else {
        emitted(actions.drop_last(), event) + if actions.last() == (ActionView::Emit { event }) {
            1nat
        } else {
            0nat
        }
    }
}

proof fn lemma_emitted_append(a: Seq<ActionView>, b: Seq<ActionView>, event: InputEvent)
    ensures
        emitted(a + b, event) == emitted(a, event) + emitted(b, event),
    decreases b.len(),
{
    if b.len() == 0 {
        assert(a + b =~= a);
    } else {
        assert((a + b).drop_last() =~= a + b.drop_last());
        assert((a + b).last() == b.last());
        lemma_emitted_append(a, b.drop_last(), event);
    }
}

proof fn lemma_emitted_once(pings: Seq<ActionView>, event: InputEvent)
    requires
        no_emits(pings),
        pings.len() <= 1,
    ensures
        emitted(pings + seq![ActionView::Emit { event }], event) == 1,
        (pings + seq![ActionView::Emit { event }]).contains(ActionView::Emit { event }),
{
    reveal_with_fuel(emitted, 3);
    let one = seq![ActionView::Emit { event }];
    lemma_emitted_append(pings, one, event);
    assert(one.drop_last() =~= Seq::<ActionView>::empty());
    assert(emitted(one, event) == 1);
    assert(emitted(pings, event) == 0) by {
        if pings.len() == 1 {
            assert(pings.drop_last() =~= Seq::<ActionView>::empty());
            assert(!(pings[0] is Emit));
        }
    }
    assert((pings + one)[pings.len() as int] == (ActionView::Emit { event }));
}

/// While slot 1 is active the hub is used as it is: every movement, and every
/// key that the hotkeys let pass, is injected unchanged, once, and nothing else
/// comes of it but the activity signal.
pub proof fn law_local_input_passes_through(
    s: RouterView,
    event: InputEvent,
    now: Instant,
    bound: Set<u8>,
)
    requires
        s.slot == 1,
        event.kind == 2 || (event.kind == 1 && verdict_on(s, event) == VerdictView::Pass),
    ensures
        ({
            let (after, step) = s.handled(event, now, bound);
            &&& emitted(step.actions, event) == 1
            &&& step.actions.contains(ActionView::Emit { event })
            &&& step.actions.last() == (ActionView::Emit { event })
            &&& forall|i: int|
                0 <= i < step.actions.len() - 1 ==> (#[trigger] step.actions[i]) is Ping
            &&& step.release is None
            &&& after.slot == 1
            &&& after.translator == s.translator
        }),
{
    let (a, pings) = s.pinged(now);
    lemma_emitted_once(pings, event);
}

/// Keys that were let through locally are remembered until they are let go, and
/// nothing but key events changes that.
pub proof fn law_local_keys_are_remembered(
    s: RouterView,
    event: InputEvent,
    now: Instant,
    bound: Set<u8>,
    other: u16,
)
    requires
        s.wf(),
        s.slot == 1,
        event.kind != 1 || verdict_on(s, event) == VerdictView::Pass,
        other != event.code,
    ensures
        ({
            let held = s.handled(event, now, bound).0.local_held;
            &&& event.kind == 1 && event.value == 1 ==> held.contains(event.code)
            &&& event.kind == 1 && event.value == 0 ==> !held.contains(event.code)
            &&& held.contains(other) <==> s.local_held.contains(other)
            &&& event.kind != 1 || (event.value != 0 && event.value != 1) ==> held == s.local_held
        }),
{
    lemma_dropped(s.local_held, event.code);
    let more = s.local_held.push(event.code);
    assert(more[s.local_held.len() as int] == event.code);
    assert(more.contains(other) <==> s.local_held.contains(other)) by {
        if s.local_held.contains(other) {
            let i = choose|i: int| 0 <= i < s.local_held.len() && s.local_held[i] == other;
            assert(more[i] == other);
        }
    }
}

/// While a remote slot is active, keys and movements go into the reports of its
/// host; nothing is sent before the device says that the event is complete.
pub proof fn law_remote_input_is_translated(
    s: RouterView,
    event: InputEvent,
    now: Instant,
    bound: Set<u8>,
)
    requires
        s.slot != 1,
        event.kind == 2 || (event.kind == 1 && verdict_on(s, event) == VerdictView::Pass),
    ensures
        ({
            let (after, step) = s.handled(event, now, bound);
            &&& event.kind == 1 ==> after.translator == translate::after_key(
                s.translator,
                event.code,
                event.value,
            )
            &&& event.kind == 2 ==> after.translator == translate::after_rel(
                s.translator,
                event.code,
                event.value,
            )
            &&& after.slot == s.slot
            &&& after.local_held == s.local_held
            &&& step.release is None
            &&& forall|i: int| 0 <= i < step.actions.len() ==> (#[trigger] step.actions[i]) is Ping
        }),
{
}

/// Once an event is complete, what changed goes out to the host of the active
/// slot: the keyboard and consumer reports where they are flagged, and the mouse
/// reports at once where a button changed or the interval is over. Motion that
/// has to wait is kept.
pub proof fn law_changes_are_sent(s: RouterView, event: InputEvent, now: Instant, bound: Set<u8>)
    requires
        s.slot != 1,
        event.kind == 0,
    ensures
        ({
            let (after, step) = s.handled(event, now, bound);
            let t = s.translator;
            let mouse = t.buttons_dirty || t.dx != 0 || t.dy != 0 || t.wheel != 0;
            let now_due = t.buttons_dirty || now.nanos >= s.mouse_ready_at.nanos;
            &&& t.kbd_dirty ==> step.actions.contains(
                ActionView::Frame { slot: s.slot, frame: t.keyboard_report() },
            )
            &&& t.consumer_dirty ==> step.actions.contains(
                ActionView::Frame { slot: s.slot, frame: t.consumer_report() },
            )
            &&& now_due ==> forall|i: int|
                0 <= i < translate::pending_mouse(t).len() ==> step.actions.contains(
                    ActionView::Frame {
                        slot: s.slot,
                        frame: #[trigger] translate::pending_mouse(t)[i],
                    },
                )
            &&& !after.translator.kbd_dirty && !after.translator.consumer_dirty
            &&& now_due ==> !after.translator.buttons_dirty && after.translator.dx == 0
                && after.translator.dy == 0 && after.translator.wheel == 0 && after.mouse_flush_at
                is None
            &&& now_due && mouse ==> after.mouse_ready_at.nanos == (now.nanos
                + s.mouse_interval.nanos) as u128
            &&& !now_due ==> after.translator.dx == t.dx && after.translator.dy == t.dy
                && after.translator.wheel == t.wheel && after.translator.buttons == t.buttons
            &&& !now_due && mouse ==> after.mouse_flush_at == (if s.mouse_flush_at is None {
                Some(s.mouse_ready_at)
            } else {
                s.mouse_flush_at
            })
            &&& step.release is None
            &&& after.slot == s.slot
        }),
{
    let (a, pings) = s.pinged(now);
    let t = s.translator;
    translate::law_flush_emits_what_changed(t);
    let step = s.handled(event, now, bound).1;
    let keys = translate::pending_keyboard(t) + translate::pending_consumer(t);
    let (p, k) = (pings.len() as int, keys.len() as int);
    assert(step.actions == pings + a.remote_frames(now));
    if t.kbd_dirty {
        assert(step.actions[p] == (ActionView::Frame { slot: s.slot, frame: t.keyboard_report() }));
    }
    if t.consumer_dirty {
        assert(keys[k - 1] == t.consumer_report());
        assert(step.actions[p + k - 1] == (ActionView::Frame {
            slot: s.slot,
            frame: t.consumer_report(),
        }));
    }
    if t.buttons_dirty || now.nanos >= s.mouse_ready_at.nanos {
        assert forall|i: int| 0 <= i < translate::pending_mouse(t).len() implies step.actions.contains(
            ActionView::Frame { slot: s.slot, frame: #[trigger] translate::pending_mouse(t)[i] },
        ) by {
            assert(step.actions[p + k + i] == (ActionView::Frame {
                slot: s.slot,
                frame: translate::pending_mouse(t)[i],
            }));
        }
    }
}

/// A deferred flush sends all the motion that waited, in reports of the active
/// slot, and restarts the interval.
pub proof fn law_deferred_motion_is_sent(s: RouterView, now: Instant)
    ensures
        s.mouse_frames().len() == translate::pending_mouse(s.translator).len(),
        forall|i: int|
            0 <= i < s.mouse_frames().len() ==> #[trigger] s.mouse_frames()[i] == (
            ActionView::Frame { slot: s.slot, frame: translate::pending_mouse(s.translator)[i] }),
        s.mouse_flushed(now).mouse_flush_at is None,
        s.mouse_flushed(now).translator.dx == 0,
        s.mouse_flushed(now).translator.dy == 0,
        s.mouse_flushed(now).translator.wheel == 0,
        s.mouse_flushed(now).translator.keyboard_report() == s.translator.keyboard_report(),
        s.mouse_flushed(now).translator.kbd_dirty == s.translator.kbd_dirty,
        s.translator.buttons_dirty || s.translator.dx != 0 || s.translator.dy != 0
            || s.translator.wheel != 0 ==> s.mouse_flushed(now).mouse_ready_at.nanos == (now.nanos
            + s.mouse_interval.nanos) as u128,
{
    translate::law_flush_emits_what_changed(s.translator);
    assert(s.mouse_flushed(now).translator.keyboard_report() =~= s.translator.keyboard_report());
}

/// The combo of another slot moves there, if it is the hub itself or has a host:
/// at once from a remote slot or with nothing held, otherwise as soon as the held
/// keys were let go. It is told once, and hooks run only with Shift, after it.
pub proof fn law_combo_switches(s: RouterView, event: InputEvent, now: Instant, bound: Set<u8>)
    requires
        event.kind == 1,
        verdict_on(s, event) is SwitchTo,
        verdict_on(s, event)->slot != s.slot,
        verdict_on(s, event)->slot == 1 || bound.contains(verdict_on(s, event)->slot),
    ensures
        ({
            let slot = verdict_on(s, event)->slot;
            let hooks = verdict_on(s, event)->fire_hooks;
            let (after, step) = s.handled(event, now, bound);
            let hook = ActionView::Hook { event: HookEvent::Slot(slot) };
            &&& s.slot != 1 || s.local_held.len() == 0 ==> {
                &&& after.slot == slot
                &&& step.release is None
                &&& step.actions.contains(ActionView::Slot { slot })
                &&& s.hooks && hooks ==> step.actions.last() == hook
                &&& !hooks ==> step.actions.last() == (ActionView::Slot { slot })
            }
            &&& s.slot == 1 && s.local_held.len() > 0 ==> {
                &&& after.slot == 1
                &&& after.local_held.len() == 0
                &&& step.release == Some(
                    ReleaseView {
                        keys: s.local_held,
                        next: Resume::Switch { slot, fire_hooks: hooks },
                    },
                )
                &&& after.resumed(Resume::Switch { slot, fire_hooks: hooks }).0.slot == slot
            }
        }),
{
    let slot = verdict_on(s, event)->slot;
    let step = s.handled(event, now, bound).1;
    let (a, pings) = s.pinged(now);
    if s.slot != 1 {
        let n = pings.len() + translate::release_reports(s.translator).len();
        assert(step.actions[n as int] == (ActionView::Slot { slot }));
    } else if s.local_held.len() == 0 {
        assert(step.actions[pings.len() as int] == (ActionView::Slot { slot }));
    }
}

/// A host that is left is told to let everything go, under its own slot, before
/// anybody hears of the switch.
pub proof fn law_leaving_a_host_frees_it(
    s: RouterView,
    slot: u8,
    fire_hooks: bool,
    bound: Set<u8>,
    host: translate::HostView,
)
    requires
        s.slot != 1,
        slot != s.slot,
        slot == 1 || bound.contains(slot),
        host.follows(s.translator),
    ensures
        ({
            let actions = s.switched(slot, fire_hooks, bound).1.actions;
            exists|reports: Seq<Seq<u8>>|
                {
                    &&& host.told_all(reports) == translate::HostView::at_rest()
                    &&& reports.len() < actions.len()
                    &&& forall|i: int|
                        0 <= i < reports.len() ==> actions[i] == (ActionView::Frame {
                            slot: s.slot,
                            frame: #[trigger] reports[i],
                        })
                    &&& actions[reports.len() as int] == (ActionView::Slot { slot })
                }
        }),
{
    let reports = translate::release_reports(s.translator);
    let actions = s.switched(slot, fire_hooks, bound).1.actions;
    translate::law_nothing_stays_stuck(s.translator, host);
    assert(actions[reports.len() as int] == (ActionView::Slot { slot }));
    assert forall|i: int| 0 <= i < reports.len() implies actions[i] == (ActionView::Frame {
        slot: s.slot,
        frame: #[trigger] reports[i],
    }) by {}
}

/// A combo that the hotkeys swallow does nothing but count as activity.
pub proof fn law_swallowed_keys_do_nothing(
    s: RouterView,
    event: InputEvent,
    now: Instant,
    bound: Set<u8>,
)
    requires
        event.kind == 1,
        verdict_on(s, event) == VerdictView::Swallow,
    ensures
        ({
            let (after, step) = s.handled(event, now, bound);
            &&& forall|i: int| 0 <= i < step.actions.len() ==> (#[trigger] step.actions[i]) is Ping
            &&& step.release is None
            &&& after.slot == s.slot
            &&& after.translator == s.translator
            &&& after.local_held == s.local_held
        }),
{
}

/// The combo of an unbound slot asks for a pairing window for that very slot,
/// and the slot stays.
pub proof fn law_unbound_combo_asks_to_pair(
    s: RouterView,
    event: InputEvent,
    now: Instant,
    bound: Set<u8>,
)
    requires
        event.kind == 1,
        verdict_on(s, event) is SwitchTo,
        verdict_on(s, event)->slot != s.slot,
        verdict_on(s, event)->slot != 1,
        !bound.contains(verdict_on(s, event)->slot),
    ensures
        ({
            let (after, step) = s.handled(event, now, bound);
            &&& step.actions.last() == (ActionView::Command {
                cmd: BtCmd::OpenPairingWindow { slot: verdict_on(s, event)->slot },
            })
            &&& forall|i: int|
                0 <= i < step.actions.len() - 1 ==> (#[trigger] step.actions[i]) is Ping
            &&& step.release is None
            &&& after.slot == s.slot
        }),
{
}

/// A macro combo asks for exactly that macro, where anybody runs macros, after
/// its modifiers were let go.
pub proof fn law_macro_combo_runs_it(
    s: RouterView,
    event: InputEvent,
    now: Instant,
    bound: Set<u8>,
)
    requires
        event.kind == 1,
        verdict_on(s, event) is RunMacro,
        s.hooks,
    ensures
        ({
            let index = verdict_on(s, event)->index as usize;
            let (after, step) = s.handled(event, now, bound);
            let hook = ActionView::Hook { event: HookEvent::Macro(index) };
            &&& step.release is None ==> step.actions.last() == hook
            &&& step.release is Some ==> (step.release->0).next == (Resume::Macro { index })
                && after.resumed((step.release->0).next).1 == seq![hook]
            &&& after.slot == s.slot
        }),
{
}

/// A hold that is newly armed is due exactly three seconds later, for the slot
/// whose combo is held, and has not fired; one that is under way keeps its time.
pub proof fn law_repair_takes_three_seconds(
    s: RouterView,
    event: InputEvent,
    now: Instant,
    bound: Set<u8>,
)
    requires
        now.in_range(),
    ensures
        ({
            let after = s.handled(event, now, bound).0;
            &&& after.repair_hold matches Some(h) ==> {
                &&& h.slot != 1
                &&& after.hotkeys.combo is Some && (after.hotkeys.combo->0).1 == h.slot
                &&& (s.repair_hold is None || (s.repair_hold->0).slot != h.slot) ==> h.at.nanos
                    == now.nanos + 3_000_000_000 && !h.fired
                &&& s.repair_hold is Some && (s.repair_hold->0).slot == h.slot ==> h
                    == s.repair_hold->0
            }
            &&& after.hotkeys.combo is None ==> after.repair_hold is None
            &&& after.hotkeys.combo is Some && (after.hotkeys.combo->0).1 != 1
                ==> after.repair_hold is Some
        }),
{
}

/// The first event after a quiet second tells the lighting that the user is
/// here, whatever the event; further ones within a second of it do not.
pub proof fn law_activity_is_signalled(
    s: RouterView,
    event: InputEvent,
    now: Instant,
    bound: Set<u8>,
)
    requires
        now.in_range(),
    ensures
        ({
            let (after, step) = s.handled(event, now, bound);
            &&& s.activity is Some && (s.activity->0).nanos <= now.nanos ==> {
                &&& step.actions.len() > 0
                &&& step.actions[0] == (ActionView::Ping { at: now })
                &&& after.activity == Some(Instant { nanos: (now.nanos + 1_000_000_000) as u128 })
            }
            &&& !(s.activity is Some && (s.activity->0).nanos <= now.nanos) ==> {
                &&& after.activity == s.activity
                &&& forall|i: int|
                    0 <= i < step.actions.len() ==> !((#[trigger] step.actions[i]) is Ping)
            }
        }),
{
    let (a, pings) = s.pinged(now);
    let step = a.dispatched(event, now, bound).1;
    lemma_no_pings(a, event, now, bound);
    assert(s.handled(event, now, bound).1.actions == pings + step.actions);
}

proof fn lemma_no_pings(s: RouterView, event: InputEvent, now: Instant, bound: Set<u8>)
    ensures
        forall|i: int|
            0 <= i < s.dispatched(event, now, bound).1.actions.len() ==> !((
            #[trigger] s.dispatched(event, now, bound).1.actions[i]) is Ping),
        s.dispatched(event, now, bound).0.activity == s.activity,
{
    if event.kind == EventType::KEY {
        let (hotkeys, verdict) = hotkey::key_step(s.hotkeys, event.code, event.value);
        let judged = RouterView { hotkeys, ..s };
        match verdict {
            VerdictView::SwitchTo { slot, fire_hooks } => {
                let (after, step) = judged.switched(slot, fire_hooks, bound);
                assert(after.activity == s.activity);
            },
            VerdictView::RunMacro { index, held_mods } => {
                let (after, step) = judged.macro_run(index as usize, held_mods, now);
                assert(after.activity == s.activity);
            },
            _ => {},
        }
    }
}

/// The spacing of motion reports keeps to the rate: as many of them as the rate
/// fill a second, to within a microsecond each.
pub proof fn law_interval_keeps_the_rate(rate_hz: u32)
    requires
        1 <= rate_hz <= 1_000_000,
    ensures
        rate_hz * interval_of(rate_hz).nanos <= 1_000_000_000,
        rate_hz * interval_of(rate_hz).nanos + rate_hz * 1000 > 1_000_000_000,
{
    let rate = rate_hz as int;
    let micros = 1_000_000int / rate;
    assert(rate * micros <= 1_000_000 && rate * micros + rate > 1_000_000) by (nonlinear_arith)
        requires
            rate >= 1,
            micros == 1_000_000int / rate,
    ;
    assert(0 <= micros <= 1_000_000) by (nonlinear_arith)
        requires
            rate >= 1,
            micros == 1_000_000int / rate,
    ;
    assert(rate * (micros * 1000) == (rate * micros) * 1000) by (nonlinear_arith);
}

/// Adding a key to a list and dropping it touch that key alone; a dropped key
/// is gone if it stood there once.
pub proof fn law_key_lists(list: Seq<u16>, key: u16, other: u16)
    requires
        other != key,
        list.no_duplicates(),
    ensures
        added(list, key).contains(key),
        added(list, key).contains(other) <==> list.contains(other),
        added(list, key).no_duplicates(),
        !dropped(list, key).contains(key),
        dropped(list, key).contains(other) <==> list.contains(other),
        dropped(list, key).no_duplicates(),
{
    let a = added(list, key);
    if !list.contains(key) {
        assert(a[list.len() as int] == key);
        if list.contains(other) {
            let i = choose|i: int| 0 <= i < list.len() && list[i] == other;
            assert(a[i] == other);
        }
        if a.contains(other) {
            let i = choose|i: int| 0 <= i < a.len() && a[i] == other;
            assert(list[i] == other);
        }
        assert forall|i: int, j: int| 0 <= i < a.len() && 0 <= j < a.len() && i != j implies a[i]
            != a[j] by {
            if i < list.len() && j < list.len() {
                assert(list[i] != list[j]);
            } else if i < list.len() {
                assert(list.contains(list[i]));
            } else {
                assert(list.contains(list[j]));
            }
        }
    } else {
        let at = list.index_of(key);
        let d = dropped(list, key);
        assert(list[at] == key);
        if d.contains(key) {
            let i = choose|i: int| 0 <= i < d.len() && d[i] == key;
            if i < at {
                assert(list[i] == key);
            } else {
                assert(list[i + 1] == key);
            }
        }
        if list.contains(other) {
            let i = choose|i: int| 0 <= i < list.len() && list[i] == other;
            if i < at {
                assert(d[i] == other);
            } else {
                assert(d[i - 1] == other);
            }
        }
        if d.contains(other) {
            let i = choose|i: int| 0 <= i < d.len() && d[i] == other;
            if i < at {
                assert(list[i] == other);
            } else {
                assert(list[i + 1] == other);
            }
        }
        assert forall|i: int, j: int| 0 <= i < d.len() && 0 <= j < d.len() && i != j implies d[i]
            != d[j] by {
            let x = if i < at {
                i
            } else {
                i + 1
            };
            let y = if j < at {
                j
            } else {
                j + 1
            };
            assert(d[i] == list[x] && d[j] == list[y]);
            assert(list[x] != list[y]);
        }
    }
}

} // verus!
