//! Points in time, in UTC, and the waits between them.

use vstd::prelude::*;

verus! {

/// The first and the last second that a calendar date can be given for.
pub const MIN_SECONDS: i64 = -8334601228800;

pub const MAX_SECONDS: i64 = 8210266876799;

/// A point in time: whole seconds since 1970-01-01 00:00:00 UTC, and the
/// nanoseconds since that second.
#[derive(Clone, Copy, Debug)]
pub struct Timestamp {
    pub secs: i64,
    pub nanos: u32,
}

impl View for Timestamp {
    type V = int;

    /// Nanoseconds since 1970-01-01 00:00:00 UTC.
    open spec fn view(&self) -> int {
        self.secs * 1_000_000_000 + self.nanos
    }
}

impl Timestamp {
    /// A point in time within the calendar's range.
    pub open spec fn valid(self) -> bool {
        &&& MIN_SECONDS <= self.secs <= MAX_SECONDS
        &&& self.nanos < 1_000_000_000
    }

    /// Whether this point comes later than another.
    pub fn is_after(&self, other: &Timestamp) -> (r: bool)
        requires
            self.valid(),
            other.valid(),
        ensures
            r == (self@ > other@),
    {
        self.secs > other.secs || (self.secs == other.secs && self.nanos > other.nanos)
    }

    /// Whether more than `secs` seconds have passed since another point.
    pub fn is_past(&self, other: &Timestamp, secs: u32) -> (r: bool)
        requires
            self.valid(),
            other.valid(),
        ensures
            r == (self@ - other@ > secs * 1_000_000_000),
    {
        let d: i64 = self.secs - other.secs;
        d > secs as i64 || (d == secs as i64 && self.nanos > other.nanos)
    }

    /// The point `secs` seconds later, or earlier where `secs` is negative.
    pub fn plus_seconds(&self, secs: i64) -> (r: Timestamp)
        requires
            self.valid(),
            MIN_SECONDS <= self.secs + secs <= MAX_SECONDS,
        ensures
            r.valid(),
            r.secs == self.secs + secs,
            r.nanos == self.nanos,
            r@ == self@ + secs * 1_000_000_000,
    {
        Timestamp { secs: self.secs + secs, nanos: self.nanos }
    }

    /// The wait from this point until a later one; none where the other point
    /// has gone by.
    pub fn until(&self, later: &Timestamp) -> (r: Wait)
        requires
            self.valid(),
            later.valid(),
        ensures
            r.nanos < 1_000_000_000,
            r@ == if later@ > self@ {
                later@ - self@
            } else {
                0
            },
    {
        if !later.is_after(self) {
            Wait { secs: 0, nanos: 0 }
        } else if later.nanos >= self.nanos {
            Wait { secs: (later.secs - self.secs) as u64, nanos: later.nanos - self.nanos }
        } else {
            Wait {
                secs: (later.secs - self.secs - 1) as u64,
                nanos: 1_000_000_000 - self.nanos + later.nanos,
            }
        }
    }
}

/// A length of time.
#[derive(Clone, Copy, Debug, PartialEq, Eq, Structural)]
pub struct Wait {
    pub secs: u64,
    pub nanos: u32,
}

impl View for Wait {
    type V = int;

    /// The length in nanoseconds.
    open spec fn view(&self) -> int {
        self.secs * 1_000_000_000 + self.nanos
    }
}

/// The system clock: `chrono::Utc::now`. It gives a point in time within the
/// calendar's range; which one depends on the clock.
#[verifier::external_body]
pub(crate) fn utc_now() -> (r: Timestamp)
    ensures
        r.valid(),
{
    let now = chrono::Utc::now();
    Timestamp { secs: now.timestamp(), nanos: now.timestamp_subsec_nanos() }
}

/// What `chrono`'s `DateTime::<Utc>::format` writes for a second since
/// 1970-01-01 00:00:00 UTC under a pattern.
pub uninterp spec fn utc_format(secs: int, pattern: Seq<char>) -> Seq<char>;

/// The pattern for a date and a time of day to the minute.
pub const MINUTE_PATTERN: &'static str = "%Y-%m-%d %H:%M UTC";

/// Writes a point in time under a pattern: `chrono`'s
/// `DateTime::from_timestamp` for the second, then `format`. The result is
/// named by `utc_format`. Some other patterns make the formatter fail, so only
/// this one is admitted.
#[verifier::external_body]
pub(crate) fn format_utc(secs: i64, pattern: &str) -> (r: String)
    requires
        MIN_SECONDS <= secs <= MAX_SECONDS,
        pattern@ == MINUTE_PATTERN@,
    ensures
        r@ == utc_format(secs as int, pattern@),
{
    chrono::DateTime::from_timestamp(secs, 0).unwrap_or_default().format(pattern).to_string()
}

} // verus!
