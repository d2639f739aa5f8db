//! Dialing the active slot's host (classic transport): one attempt at a time,
//! abandoned when the target changes, with a pause after a failure.

use vstd::prelude::*;

use crate::bt::addr::Address;
use crate::time::{Duration, Instant};

verus! {

/// After a failed dial, wait before retrying so a host that rejects us
/// doesn't cause a reconnect storm.
pub const REDIAL_COOLDOWN_SECS: u64 = 3;

/// How an attempt ended.
#[derive(Debug, Clone, Copy, PartialEq, Eq, Structural)]
pub enum DialOutcome {
    Connected,
    /// The active slot's device is no longer paired (pairing removed
    /// out-of-band) — dialing it can never succeed.
    StaleBinding,
    Failed,
}

/// What to do before waiting for the next event.
#[derive(Debug, Clone, Copy, PartialEq, Eq, Structural)]
pub struct DialStep {
    /// The attempt in flight is for another host than the one wanted: abandon
    /// it.
    pub abort: bool,
    /// Start an attempt.
    pub start: Option<Address>,
    /// Nothing in flight, waiting for the cooldown to pass.
    pub wait_until: Option<Instant>,
}

#[derive(Debug)]
pub struct Dialer {
    /// The attempt in flight. It runs as its own task so that other events
    /// never drop and restart it — an aborted Create Connection every few ms
    /// wedges controllers.
    dialing: Option<Address>,
    redial_at: Option<Instant>,
}

/// The state of a [`Dialer`].
pub struct DialerView {
    pub dialing: Option<Address>,
    pub redial_at: Option<Instant>,
}

impl View for Dialer {
    type V = DialerView;

    closed spec fn view(&self) -> DialerView {
        DialerView { dialing: self.dialing, redial_at: self.redial_at }
    }
}

impl DialerView {
    /// The next step where `wanted` is the host to dial, if it is not
    /// connected.
    pub open spec fn stepped(self, wanted: Option<Address>, connected: bool, now: Instant) -> (
        DialerView,
        DialStep,
    ) {
        let abort = self.dialing is Some && self.dialing != wanted;
        let in_flight = if abort {
            None
        } else {
            self.dialing
        };
        let need = wanted is Some && !connected;
        let ready = self.redial_at matches Some(at) ==> at.reached(now);
        let start = if need && in_flight is None && ready {
            wanted
        } else {
            None
        };
        let dialing = if start is Some {
            start
        } else {
            in_flight
        };
        (
            DialerView { dialing, ..self },
            DialStep {
                abort,
                start,
                wait_until: if need && dialing is None {
                    self.redial_at
                } else {
                    None
                },
            },
        )
    }

    /// After the attempt in flight ended.
    pub open spec fn ended(self, outcome: DialOutcome, now: Instant) -> DialerView {
        DialerView {
            dialing: None,
            redial_at: match outcome {
                DialOutcome::Failed => Some(
                    now.plus(Duration::of_secs(REDIAL_COOLDOWN_SECS as int)),
                ),
                _ => None,
            },
        }
    }
}

impl Dialer {
    pub fn new() -> (r: Self)
        ensures
            r@ == (DialerView { dialing: None, redial_at: None }),
    {
        Dialer { dialing: None, redial_at: None }
    }

    /// `wanted` is the host to dial, `connected` whether it is connected.
    pub fn step(&mut self, wanted: Option<Address>, connected: bool, now: Instant) -> (r: DialStep)
        ensures
            (final(self)@, r) == old(self)@.stepped(wanted, connected, now),
    {
        let abort = match (self.dialing, wanted) {
            (None, _) => false,
            (Some(_), None) => true,
            (Some(a), Some(b)) => a != b,
        };
        if abort {
            self.dialing = None;
        }
        let need = wanted.is_some() && !connected;
        let ready = match self.redial_at {
            Some(at) => at.is_reached(now),
            None => true,
        };
        let mut start: Option<Address> = None;
        if need && self.dialing.is_none() && ready {
            start = wanted;
            self.dialing = wanted;
        }
        let wait_until = if need && self.dialing.is_none() {
            self.redial_at
        } else {
            None
        };
        DialStep { abort, start, wait_until }
    }

    /// The attempt in flight ended.
    pub fn on_outcome(&mut self, outcome: DialOutcome, now: Instant)
        requires
            now.in_range(),
        ensures
            final(self)@ == old(self)@.ended(outcome, now),
    {
        self.dialing = None;
        self.redial_at = match outcome {
            DialOutcome::Connected => None,
            DialOutcome::StaleBinding => None,
            DialOutcome::Failed => Some(now.after(Duration::from_secs(REDIAL_COOLDOWN_SECS))),
        };
    }

    /// The cooldown has passed.
    pub fn on_cooldown_over(&mut self)
        ensures
            final(self)@ == (DialerView { redial_at: None, ..old(self)@ }),
    {
        self.redial_at = None;
    }
}

/// At most one attempt is in flight, and it is for the host that is wanted.
pub proof fn law_one_attempt_for_the_wanted_host(
    d: DialerView,
    wanted: Option<Address>,
    connected: bool,
    now: Instant,
)
    ensures
        ({
            let (after, step) = d.stepped(wanted, connected, now);
            &&& after.dialing is Some ==> after.dialing == wanted
            &&& step.start is Some ==> step.start == wanted && !connected && (d.dialing is None
                || step.abort)
        }),
{
}

/// After a failure no attempt starts before the cooldown has passed, and one
/// starts as soon as it has.
pub proof fn law_failures_are_spaced(
    d: DialerView,
    failed_at: Instant,
    wanted: Address,
    now: Instant,
)
    requires
        failed_at.in_range(),
    ensures
        d.ended(DialOutcome::Failed, failed_at).stepped(Some(wanted), false, now).1.start is Some
            <==> failed_at.nanos + REDIAL_COOLDOWN_SECS * 1_000_000_000 <= now.nanos,
{
}

/// An attempt for a host that is no longer wanted is abandoned, one for the
/// wanted host goes on; a host that is wanted and not connected is dialed at
/// once where nothing is in flight and no pause runs, and waited for until the
/// pause ends otherwise; a connected one is left alone.
pub proof fn law_when_to_dial(d: DialerView, wanted: Option<Address>, connected: bool, now: Instant)
    ensures
        ({
            let (after, step) = d.stepped(wanted, connected, now);
            let paused = d.redial_at is Some && (d.redial_at->0).nanos > now.nanos;
            let free = d.dialing is None || step.abort;
            &&& step.abort <==> d.dialing is Some && d.dialing != wanted
            &&& wanted is Some && !connected && free && !paused ==> step.start == wanted
                && after.dialing == wanted && step.wait_until is None
            &&& wanted is Some && !connected && free && paused ==> step.start is None
                && after.dialing is None && step.wait_until == d.redial_at
            &&& !free ==> step.start is None && after.dialing == d.dialing
                && step.wait_until is None
            &&& (wanted is None || connected) ==> step.start is None && step.wait_until is None
            &&& after.redial_at == d.redial_at
        }),
{
}

/// A failed attempt is followed by three seconds' pause; any other end by
/// none.
pub proof fn law_pause_after_failure(d: DialerView, now: Instant)
    requires
        now.in_range(),
    ensures
        d.ended(DialOutcome::Failed, now).redial_at == Some(
            Instant { nanos: (now.nanos + 3_000_000_000) as u128 },
        ),
        d.ended(DialOutcome::Connected, now).redial_at is None,
        d.ended(DialOutcome::StaleBinding, now).redial_at is None,
        d.ended(DialOutcome::Failed, now).dialing is None,
        d.ended(DialOutcome::Connected, now).dialing is None,
        d.ended(DialOutcome::StaleBinding, now).dialing is None,
{
}

} // verus!
