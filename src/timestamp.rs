//! Points in time as seconds and nanoseconds since the Unix epoch, and the
//! calls into chrono that read them from log text.
use chrono::TimeZone;
use vstd::prelude::*;

verus! {

/// An instant: whole seconds since 1970-01-01T00:00:00Z and the nanoseconds
/// past that second.
#[derive(Clone, Copy, Debug, PartialEq, Eq, Structural)]
pub struct Timestamp {
    pub secs: i64,
    pub nanos: u32,
}

impl Timestamp {
    /// Strictly earlier than `other`.
    pub open spec fn before(self, other: Timestamp) -> bool {
        self.secs < other.secs || (self.secs == other.secs && self.nanos < other.nanos)
    }

    pub fn is_before(&self, other: &Timestamp) -> (r: bool)
        ensures
            r == self.before(*other),
    {
        self.secs < other.secs || (self.secs == other.secs && self.nanos < other.nanos)
    }

    /// The Unix epoch, which also stands for "never".
    pub fn epoch() -> (r: Timestamp)
        ensures
            r == epoch_spec(),
    {
        Timestamp { secs: 0, nanos: 0 }
    }
}

pub open spec fn epoch_spec() -> Timestamp {
    Timestamp { secs: 0, nanos: 0 }
}

/// The later of two instants.
pub open spec fn later_of(a: Timestamp, b: Timestamp) -> Timestamp {
    if a.before(b) {
        b
    } else {
        a
    }
}

pub open spec fn pair_to_timestamp(p: (i64, u32)) -> Timestamp {
    Timestamp { secs: p.0, nanos: p.1 }
}

/// The instant that an RFC 3339 date-time text denotes, if it is one.
pub uninterp spec fn rfc3339_instant(s: Seq<char>) -> Option<(i64, u32)>;

/// The wall-clock date-time that `s` gives under the format `fmt`, counted as
/// seconds and nanoseconds as if it were UTC, if `s` matches the format.
pub uninterp spec fn naive_datetime_of(s: Seq<char>, fmt: Seq<char>) -> Option<(i64, u32)>;

/// Relies on chrono's `DateTime::parse_from_rfc3339`: whether it succeeds and
/// which instant it yields depend on the text alone.
#[verifier::external_body]
pub(crate) fn parse_rfc3339(s: &str) -> (r: Option<(i64, u32)>)
    ensures
        r == rfc3339_instant(s@),
{
    chrono::DateTime::parse_from_rfc3339(s).ok().map(|d| (d.timestamp(), d.timestamp_subsec_nanos()))
}

/// Relies on chrono's `NaiveDateTime::parse_from_str`: whether it succeeds
/// and which wall-clock date-time it yields depend on the text and the format
/// alone.
#[verifier::external_body]
pub(crate) fn parse_naive(s: &str, fmt: &str) -> (r: Option<(i64, u32)>)
    ensures
        r == naive_datetime_of(s@, fmt@),
{
    chrono::NaiveDateTime::parse_from_str(s, fmt).ok().map(|n| {
        let u = n.and_utc();
        (u.timestamp(), u.timestamp_subsec_nanos())
    })
}

/// Relies on chrono's `Local::from_local_datetime`: the instant at which the
/// machine's clock shows the given wall-clock date-time, when there is exactly
/// one. Which instant depends on the machine's time zone; chrono bounds every
/// offset below a day and keeps the nanoseconds.
#[verifier::external_body]
pub(crate) fn local_instant(secs: i64, nanos: u32) -> (r: Option<(i64, u32)>)
    ensures
        r matches Some(p) ==> secs - 86400 < p.0 < secs + 86400 && p.1 == nanos,
{
    chrono::DateTime::from_timestamp(secs, nanos)
        .and_then(|u| chrono::Local.from_local_datetime(&u.naive_utc()).single())
        .map(|d| (d.timestamp(), d.timestamp_subsec_nanos()))
}

} // verus!
