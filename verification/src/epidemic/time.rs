//! Instants and spans of time as plain numbers, and the reading of the
//! system clock.

use vstd::prelude::*;

verus! {

/// Nanoseconds in one second.
pub const NANOS_PER_SEC: u32 = 1_000_000_000;

/// An instant of UTC wall-clock time: whole seconds since the Unix epoch and
/// the nanoseconds that have passed within that second.
#[derive(Clone, Copy, Debug, PartialEq, Eq, Structural, Hash)]
pub struct Timestamp {
    pub secs: i64,
    pub nanos: u32,
}

/// A signed span of time: whole seconds (rounded down) and the nanoseconds
/// to add to them.
#[derive(Clone, Copy, Debug, PartialEq, Eq, Structural, Hash)]
pub struct Duration {
    pub secs: i64,
    pub nanos: u32,
}

impl Timestamp {
    /// The nanosecond part is a proper fraction of a second.
    pub open spec fn wf(&self) -> bool {
        self.nanos < NANOS_PER_SEC
    }

    /// Nanoseconds between the Unix epoch and this instant.
    pub open spec fn as_nanos(&self) -> int {
        self.secs * 1_000_000_000 + self.nanos
    }

    /// The instant `secs` seconds and `nanos` nanoseconds after the epoch, or
    /// `None` when `nanos` is a second or more.
    pub fn new(secs: i64, nanos: u32) -> (r: Option<Timestamp>)
        ensures
            r == if nanos < NANOS_PER_SEC {
                Some(Timestamp { secs, nanos })
            } else {
                None
            },
    {
        if nanos < NANOS_PER_SEC {
            Some(Timestamp { secs, nanos })
        } else {
            None
        }
    }

    /// Reads the system clock. Nothing is known of the reading but that it
    /// is well formed. Panics where the system clock stands before 1970.
    pub fn now() -> (t: Timestamp)
        ensures
            t.wf(),
    {
        utc_now()
    }

    /// Whether more than `span` has passed between this instant and `now`.
    pub fn older_than(&self, span: Duration, now: Timestamp) -> (r: bool)
        ensures
            r == (self.as_nanos() + span.as_nanos() < now.as_nanos()),
    {
        let then: i128 = nanos_of(self.secs, self.nanos);
        let wait: i128 = nanos_of(span.secs, span.nanos);
        let current: i128 = nanos_of(now.secs, now.nanos);
        then + wait < current
    }

    /// The whole milliseconds from this instant to `later`, rounded towards
    /// zero, or `None` where they do not fit the result.
    pub fn millis_until(&self, later: Timestamp) -> (r: Option<i64>)
        ensures
            r == if i64::MIN <= millis_between(*self, later) <= i64::MAX {
                Some(millis_between(*self, later) as i64)
            } else {
                None
            },
    {
        let diff: i128 = nanos_of(later.secs, later.nanos) - nanos_of(self.secs, self.nanos);
        let millis: i128 = if diff >= 0 {
            ((diff as u128) / 1_000_000u128) as i128
        } else {
            -((((-diff) as u128) / 1_000_000u128) as i128)
        };
        if -9_223_372_036_854_775_808i128 <= millis && millis <= 9_223_372_036_854_775_807i128 {
            Some(millis as i64)
        } else {
            None
        }
    }
}

impl Duration {
    /// The nanosecond part is a proper fraction of a second.
    pub open spec fn wf(&self) -> bool {
        self.nanos < NANOS_PER_SEC
    }

    /// The span in nanoseconds.
    pub open spec fn as_nanos(&self) -> int {
        self.secs * 1_000_000_000 + self.nanos
    }

    /// The span of `secs` seconds and `nanos` nanoseconds, or `None` when
    /// `nanos` is a second or more.
    pub fn new(secs: i64, nanos: u32) -> (r: Option<Duration>)
        ensures
            r == if nanos < NANOS_PER_SEC {
                Some(Duration { secs, nanos })
            } else {
                None
            },
    {
        if nanos < NANOS_PER_SEC {
            Some(Duration { secs, nanos })
        } else {
            None
        }
    }

    /// A span of whole seconds.
    pub fn seconds(seconds: i64) -> (d: Duration)
        ensures
            d == (Duration { secs: seconds, nanos: 0 }),
            d.wf(),
            d.as_nanos() == seconds * 1_000_000_000,
    {
        Duration { secs: seconds, nanos: 0 }
    }
}

/// The whole milliseconds that lie between `earlier` and `later`, rounded
/// towards zero; negative where `later` is the earlier of the two.
pub open spec fn millis_between(earlier: Timestamp, later: Timestamp) -> int {
    let diff = later.as_nanos() - earlier.as_nanos();
    if diff >= 0 {
        diff / 1_000_000
    } else {
        -((-diff) / 1_000_000)
    }
}

/// `secs` seconds and `nanos` nanoseconds as one count of nanoseconds.
fn nanos_of(secs: i64, nanos: u32) -> (n: i128)
    ensures
        n == secs * 1_000_000_000 + nanos,
{
    (secs as i128) * 1_000_000_000i128 + (nanos as i128)
}

/// Calls `chrono::Utc::now` and splits the reading with
/// `DateTime::timestamp` and `DateTime::timestamp_subsec_nanos`. The reading
/// is whatever the system clock says, so the contract claims only what holds
/// of each one: chrono builds it from a `std::time::Duration`, whose
/// nanosecond part is below one second, and hands that part back unchanged.
/// chrono panics where the system clock stands before the Unix epoch.
#[verifier::external_body]
fn utc_now() -> (t: Timestamp)
    ensures
        t.wf(),
{
    let now = chrono::Utc::now();
    Timestamp { secs: now.timestamp(), nanos: now.timestamp_subsec_nanos() }
}

} // verus!
