//! Points in time and spans between them, in nanoseconds. The clock itself is
//! read outside; decisions take the instant they are made at.

use vstd::prelude::*;

verus! {

/// One past the last nanosecond that any clock or configured span reaches.
pub const HORIZON: u128 = 0x1_0000_0000_0000_0000_0000_0000;

/// A span of time.
#[derive(Debug, Clone, Copy, PartialEq, Eq, Hash, Structural)]
pub struct Duration {
    pub nanos: u128,
}

impl Duration {
    /// A span that a configuration can ask for.
    pub open spec fn in_range(self) -> bool {
        self.nanos < HORIZON
    }

    pub open spec fn of_secs(secs: int) -> Duration {
        Duration { nanos: (secs * 1_000_000_000) as u128 }
    }

    pub open spec fn of_millis(millis: int) -> Duration {
        Duration { nanos: (millis * 1_000_000) as u128 }
    }

    pub fn from_secs(secs: u64) -> (r: Self)
        ensures
            r == Duration::of_secs(secs as int),
            r.nanos == secs * 1_000_000_000,
            r.in_range(),
    {
        Duration { nanos: secs as u128 * 1_000_000_000 }
    }

    pub fn from_millis(millis: u64) -> (r: Self)
        ensures
            r == Duration::of_millis(millis as int),
            r.nanos == millis * 1_000_000,
            r.in_range(),
    {
        Duration { nanos: millis as u128 * 1_000_000 }
    }

    /// Whole seconds.
    pub fn as_secs(&self) -> (r: u64)
        requires
            self.nanos <= u64::MAX * 1_000_000_000,
        ensures
            r == self.nanos / 1_000_000_000,
    {
        (self.nanos / 1_000_000_000) as u64
    }
}

/// A point in time, counted from a fixed but arbitrary start.
#[derive(Debug, Clone, Copy, PartialEq, Eq, Hash, Structural)]
pub struct Instant {
    pub nanos: u128,
}

impl Instant {
    /// An instant that a clock can show.
    pub open spec fn in_range(self) -> bool {
        self.nanos < HORIZON
    }

    /// The instant a span later.
    pub open spec fn plus(self, d: Duration) -> Instant {
        Instant { nanos: (self.nanos + d.nanos) as u128 }
    }

    /// The instant a span later.
    pub fn after(self, d: Duration) -> (r: Self)
        requires
            self.nanos + d.nanos <= u128::MAX,
        ensures
            r == self.plus(d),
            r.nanos == self.nanos + d.nanos,
    {
        Instant { nanos: self.nanos + d.nanos }
    }

    /// Whether this instant has been reached at `now`.
    pub open spec fn reached(self, now: Instant) -> bool {
        self.nanos <= now.nanos
    }

    /// Whether this instant has been reached at `now`.
    pub fn is_reached(self, now: Instant) -> (r: bool)
        ensures
            r == self.reached(now),
    {
        self.nanos <= now.nanos
    }

    /// How long ago `earlier` was; nothing where it is not in the past.
    pub open spec fn since(self, earlier: Instant) -> Duration {
        Duration {
            nanos: if earlier.nanos <= self.nanos {
                (self.nanos - earlier.nanos) as u128
            } else {
                0
            },
        }
    }

    /// How long ago `earlier` was; nothing where it is not in the past.
    pub fn duration_since(self, earlier: Instant) -> (r: Duration)
        ensures
            r == self.since(earlier),
    {
        if earlier.nanos <= self.nanos {
            Duration { nanos: self.nanos - earlier.nanos }
        } else {
            Duration { nanos: 0 }
        }
    }
}

/// Whether a deadline is set and has been reached.
pub open spec fn due(deadline: Option<Instant>, now: Instant) -> bool {
    deadline matches Some(at) && at.reached(now)
}

/// Whether a deadline is set and has been reached.
pub fn is_due(deadline: Option<Instant>, now: Instant) -> (r: bool)
    ensures
        r == due(deadline, now),
{
    match deadline {
        Some(at) => at.is_reached(now),
        None => false,
    }
}

/// The earlier of two optional deadlines.
pub open spec fn earlier(a: Option<Instant>, b: Option<Instant>) -> Option<Instant> {
    match (a, b) {
        (Some(x), Some(y)) => Some(if x.nanos <= y.nanos {
            x
        } else {
            y
        }),
        (Some(x), None) => Some(x),
        (None, other) => other,
    }
}

/// The earlier of two optional deadlines.
pub fn earlier_of(a: Option<Instant>, b: Option<Instant>) -> (r: Option<Instant>)
    ensures
        r == earlier(a, b),
{
    match (a, b) {
        (Some(x), Some(y)) => Some(
            if x.nanos <= y.nanos {
                x
            } else {
                y
            },
        ),
        (Some(x), None) => Some(x),
        (None, other) => other,
    }
}

/// Spans count nanoseconds: a thousand million to the second, a million to the
/// millisecond. Adding a span to an instant and asking how long ago that was
/// are opposites.
pub proof fn law_nanoseconds(secs: u64, now: Instant, d: Duration)
    requires
        now.in_range(),
        d.in_range(),
    ensures
        Duration::of_secs(secs as int).nanos == secs * 1000000000,
        Duration::of_millis(secs as int).nanos == secs * 1000000,
        now.plus(d).nanos == now.nanos + d.nanos,
        now.plus(d).since(now) == d,
        now.since(now.plus(d)).nanos == 0,
        now.plus(d).reached(now) <==> d.nanos == 0,
        now.reached(now.plus(d)),
{
    assert(secs * 1000000000 <= u64::MAX * 1000000000) by (nonlinear_arith)
        requires
            secs <= u64::MAX,
    ;
    assert(secs * 1000000 <= u64::MAX * 1000000) by (nonlinear_arith)
        requires
            secs <= u64::MAX,
    ;
}

/// The earlier of two deadlines is one of them, is there if either is, and
/// comes after neither; it is due exactly when one of them is.
pub proof fn law_the_earlier_deadline(a: Option<Instant>, b: Option<Instant>, now: Instant)
    ensures
        earlier(a, b) == a || earlier(a, b) == b,
        earlier(a, b) is None <==> a is None && b is None,
        a is Some ==> (earlier(a, b)->0).nanos <= (a->0).nanos,
        b is Some ==> (earlier(a, b)->0).nanos <= (b->0).nanos,
        due(earlier(a, b), now) <==> due(a, now) || due(b, now),
        due(a, now) <==> a is Some && (a->0).nanos <= now.nanos,
{
}

} // verus!
