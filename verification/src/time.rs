//! Points in time, and their textual forms.
//!
//! A [`Timestamp`] counts seconds and nanoseconds from the Unix epoch. The
//! calendar is `chrono`'s: the textual forms are what it prints.

use crate::writer::one_line;
use vstd::prelude::*;

verus! {

/// Seconds from the Unix epoch to the earliest moment of `chrono`'s calendar,
/// the start of the year -262143.
pub const EARLIEST: i64 = -8_334_601_228_800;

/// Seconds from the Unix epoch to the last second of `chrono`'s calendar, the
/// end of the year 262142.
pub const LATEST: i64 = 8_210_266_876_799;

/// Nanoseconds in a second.
pub const NANOS_PER_SEC: u32 = 1_000_000_000;

/// The moment `secs` seconds and `nanos` nanoseconds after the Unix epoch lies
/// in `chrono`'s calendar.
pub open spec fn in_calendar(secs: i64, nanos: u32) -> bool {
    EARLIEST <= secs <= LATEST && nanos < NANOS_PER_SEC
}

/// What `chrono::DateTime::<Utc>::to_rfc3339_opts` prints, with milliseconds
/// and `Z`, for the moment `secs` seconds and `nanos` nanoseconds after the
/// Unix epoch.
pub uninterp spec fn rfc3339_millis_text(secs: i64, nanos: u32) -> Seq<char>;

/// What `chrono::DateTime::<Utc>::to_rfc3339` prints for that moment.
pub uninterp spec fn rfc3339_text(secs: i64, nanos: u32) -> Seq<char>;

/// What `chrono::DateTime::<Utc>::format` prints for that moment under the
/// pattern `pattern`.
pub uninterp spec fn strftime_text(secs: i64, nanos: u32, pattern: Seq<char>) -> Seq<char>;

/// Calls `chrono::Utc::now` and takes the result apart. The clock decides what
/// comes back; it is never before the Unix epoch nor outside the calendar.
#[verifier::external_body]
fn utc_now() -> (r: (i64, u32))
    ensures
        in_calendar(r.0, r.1),
        0 <= r.0,
{
    let now = chrono::Utc::now();
    (now.timestamp(), now.timestamp_subsec_nanos())
}

/// Calls `chrono::DateTime::to_rfc3339_opts` with milliseconds and `Z`. The
/// text depends on the moment alone, and holds no line feed.
#[verifier::external_body]
fn print_rfc3339_millis(secs: i64, nanos: u32) -> (r: String)
    requires
        in_calendar(secs, nanos),
    ensures
        r@ == rfc3339_millis_text(secs, nanos),
        one_line(r@),
{
    chrono::DateTime::<chrono::Utc>::from_timestamp(secs, nanos)
        .expect("moment in the calendar")
        .to_rfc3339_opts(chrono::SecondsFormat::Millis, true)
}

/// Calls `chrono::DateTime::to_rfc3339`. The text depends on the moment alone.
#[verifier::external_body]
fn print_rfc3339(secs: i64, nanos: u32) -> (r: String)
    requires
        in_calendar(secs, nanos),
    ensures
        r@ == rfc3339_text(secs, nanos),
{
    chrono::DateTime::<chrono::Utc>::from_timestamp(secs, nanos)
        .expect("moment in the calendar")
        .to_rfc3339()
}

/// Calls `chrono::DateTime::format` and prints what it gives. The text depends
/// on the moment and the pattern alone. A pattern that `chrono` does not know
/// would panic, so only the two patterns in use are admitted.
#[verifier::external_body]
fn print_formatted(secs: i64, nanos: u32, pattern: &str) -> (r: String)
    requires
        in_calendar(secs, nanos),
        pattern@ == "%Y%m%d"@ || pattern@ == "%Y%m%dT%H%M%SZ"@,
    ensures
        r@ == strftime_text(secs, nanos, pattern@),
{
    chrono::DateTime::<chrono::Utc>::from_timestamp(secs, nanos)
        .expect("moment in the calendar")
        .format(pattern)
        .to_string()
}

/// A moment in coordinated universal time.
#[derive(Clone, Copy, Debug)]
pub struct Timestamp {
    secs: i64,
    nanos: u32,
}

impl Timestamp {
    #[verifier::type_invariant]
    pub closed spec fn well_formed(self) -> bool {
        in_calendar(self.secs, self.nanos)
    }

    /// Whole seconds from the Unix epoch.
    pub closed spec fn secs(self) -> i64 {
        self.secs
    }

    /// Nanoseconds past the whole second.
    pub closed spec fn nanos(self) -> u32 {
        self.nanos
    }

    /// Nanoseconds from the Unix epoch.
    pub open spec fn total_nanos(self) -> int {
        self.secs() * NANOS_PER_SEC + self.nanos()
    }

    /// The moment in the form `2024-01-31T12:00:00.000Z`.
    pub open spec fn millis_text(self) -> Seq<char> {
        rfc3339_millis_text(self.secs(), self.nanos())
    }

    /// The moment, where it lies in the calendar.
    pub fn from_unix(secs: i64, nanos: u32) -> (r: Option<Timestamp>)
        ensures
            r is Some <==> in_calendar(secs, nanos),
            r matches Some(t) ==> t.secs() == secs && t.nanos() == nanos,
    {
        if EARLIEST <= secs && secs <= LATEST && nanos < NANOS_PER_SEC {
            Some(Timestamp { secs, nanos })
        } else {
            None
        }
    }

    /// The current moment, as the system clock gives it.
    pub fn now() -> (r: Timestamp)
        ensures
            in_calendar(r.secs(), r.nanos()),
            r.secs() >= 0,
    {
        let (secs, nanos) = utc_now();
        Timestamp { secs, nanos }
    }

    /// Whole seconds from the Unix epoch.
    pub fn unix_secs(&self) -> (r: i64)
        ensures
            r == self.secs(),
    {
        self.secs
    }

    /// Nanoseconds past the whole second.
    pub fn subsec_nanos(&self) -> (r: u32)
        ensures
            r == self.nanos(),
            r < NANOS_PER_SEC,
    {
        proof {
            use_type_invariant(self);
        }
        self.nanos
    }

    /// Whether this moment lies before `other`.
    pub fn is_before(&self, other: &Timestamp) -> (r: bool)
        ensures
            r == (self.total_nanos() < other.total_nanos()),
    {
        proof {
            use_type_invariant(self);
            use_type_invariant(other);
        }
        self.secs < other.secs || (self.secs == other.secs && self.nanos < other.nanos)
    }

    /// The whole seconds from this moment to `end`, rounded toward zero.
    pub fn seconds_until(&self, end: &Timestamp) -> (r: i64)
        ensures
            r == seconds_between(*self, *end),
    {
        proof {
            use_type_invariant(self);
            use_type_invariant(end);
        }
        let d: i64 = end.secs - self.secs;
        if d > 0 && end.nanos < self.nanos {
            d - 1
        } else if d < 0 && end.nanos > self.nanos {
            d + 1
        } else {
            d
        }
    }

    /// The moment in the form `2024-01-31T12:00:00.000Z`.
    pub fn rfc3339_millis(&self) -> (r: String)
        ensures
            r@ == self.millis_text(),
            one_line(r@),
    {
        proof {
            use_type_invariant(self);
        }
        print_rfc3339_millis(self.secs, self.nanos)
    }

    /// The moment in the form `2024-01-31T12:00:00+00:00`, with as many digits
    /// of the second as it needs.
    pub fn rfc3339(&self) -> (r: String)
        ensures
            r@ == rfc3339_text(self.secs(), self.nanos()),
    {
        proof {
            use_type_invariant(self);
        }
        print_rfc3339(self.secs, self.nanos)
    }

    /// The day in the form `20240131`.
    pub fn date_stamp(&self) -> (r: String)
        ensures
            r@ == strftime_text(self.secs(), self.nanos(), "%Y%m%d"@),
    {
        proof {
            use_type_invariant(self);
        }
        print_formatted(self.secs, self.nanos, "%Y%m%d")
    }

    /// The moment in the form `20240131T120000Z`.
    pub fn basic_date_time(&self) -> (r: String)
        ensures
            r@ == strftime_text(self.secs(), self.nanos(), "%Y%m%dT%H%M%SZ"@),
    {
        proof {
            use_type_invariant(self);
        }
        print_formatted(self.secs, self.nanos, "%Y%m%dT%H%M%SZ")
    }
}

/// The whole seconds from `start` to `end`, rounded toward zero.
pub open spec fn seconds_between(start: Timestamp, end: Timestamp) -> int {
    let nanos = end.total_nanos() - start.total_nanos();
    if nanos >= 0 {
        nanos / NANOS_PER_SEC as int
    } else {
        -((-nanos) / NANOS_PER_SEC as int)
    }
}

/// A span is what it takes to get from the start to the end in whole seconds:
/// adding it to the start does not pass the end, and one second more does; a
/// span backwards is the same with the sign changed.
pub proof fn law_span_of_seconds(start: Timestamp, end: Timestamp)
    ensures
        seconds_between(start, end) == -seconds_between(end, start),
        start.total_nanos() <= end.total_nanos() ==> {
            let s = seconds_between(start, end);
            &&& 0 <= s
            &&& start.total_nanos() + s * 1_000_000_000 <= end.total_nanos()
            &&& end.total_nanos() < start.total_nanos() + (s + 1) * 1_000_000_000
        },
{
}

/// A moment counts a billion nanoseconds for each of its seconds.
pub proof fn law_seconds_count_nanos(t: Timestamp)
    ensures
        t.total_nanos() == t.secs() * 1_000_000_000 + t.nanos(),
{
}

} // verus!
