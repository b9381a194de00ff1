use vstd::prelude::*;

verus! {

/// An instant on the UTC time line: whole seconds since the Unix epoch and the
/// nanoseconds past that second (over a billion only inside a leap second).
#[derive(Debug, Clone, Copy, PartialEq, Eq, Structural)]
pub struct Timestamp {
    pub secs: i64,
    pub nanos: u32,
}

pub const SECS_PER_DAY: i64 = 86400;

/// Bound on `secs` that keeps an instant well inside the range of dates chrono can represent.
pub const MAX_ABS_SECS: i64 = 8_000_000_000_000;

impl Timestamp {
    /// An ordinary (non-leap) instant within some 250,000 years of the epoch.
    pub open spec fn in_range(self) -> bool {
        -MAX_ABS_SECS <= self.secs <= MAX_ABS_SECS && self.nanos < 1_000_000_000
    }

    pub fn is_in_range(&self) -> (r: bool)
        ensures
            r == self.in_range(),
    {
        -MAX_ABS_SECS <= self.secs && self.secs <= MAX_ABS_SECS && self.nanos < 1_000_000_000
    }
}

/// Chronological order: `a` is strictly earlier than `b`.
pub open spec fn earlier(a: Timestamp, b: Timestamp) -> bool {
    a.secs < b.secs || (a.secs == b.secs && a.nanos < b.nanos)
}

pub fn is_earlier(a: Timestamp, b: Timestamp) -> (r: bool)
    ensures
        r == earlier(a, b),
{
    a.secs < b.secs || (a.secs == b.secs && a.nanos < b.nanos)
}

/// The instant an RFC 3339 text denotes, if it is one.
pub uninterp spec fn rfc3339_instant(s: Seq<char>) -> Option<Timestamp>;

/// The RFC 3339 text of an instant, with a `+00:00` offset.
pub uninterp spec fn rfc3339_text(t: Timestamp) -> Seq<char>;

/// Relies on chrono's `DateTime::parse_from_rfc3339`, read back as the UTC
/// instant through `timestamp` and `timestamp_subsec_nanos`.
#[verifier::external_body]
pub(crate) fn parse_rfc3339(s: &str) -> (r: Option<Timestamp>)
    ensures
        r == rfc3339_instant(s@),
{
    chrono::DateTime::parse_from_rfc3339(s).ok().map(
        |d| Timestamp { secs: d.timestamp(), nanos: d.timestamp_subsec_nanos() },
    )
}

/// Relies on chrono's `DateTime::from_timestamp`, which gives a value for every
/// in-range instant, and `DateTime::to_rfc3339`.
#[verifier::external_body]
pub(crate) fn format_rfc3339(t: Timestamp) -> (r: String)
    requires
        t.in_range(),
    ensures
        r@ == rfc3339_text(t),
{
    chrono::DateTime::from_timestamp(t.secs, t.nanos).map(|d| d.to_rfc3339()).unwrap_or_default()
}

/// The calendar year of an instant, in UTC, as `%Y` writes it.
pub uninterp spec fn year_text_of(t: Timestamp) -> Seq<char>;

/// Relies on chrono's `DateTime::from_timestamp`, which gives a value for every
/// in-range instant, and on `format("%Y")`.
#[verifier::external_body]
pub(crate) fn year_text(t: Timestamp) -> (r: String)
    requires
        t.in_range(),
    ensures
        r@ == year_text_of(t),
{
    chrono::DateTime::from_timestamp(t.secs, t.nanos).map(|d| d.format("%Y").to_string()).unwrap_or_default()
}

} // verus!
