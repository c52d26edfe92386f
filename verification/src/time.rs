//! Instants in UTC, and the calendar arithmetic that turns a civil date and
//! time of day into one.

use chrono::TimeZone;
use vstd::prelude::*;

verus! {

/// An instant: whole seconds since 1970-01-01T00:00:00Z and the nanoseconds
/// past that second (as chrono's `timestamp` and `timestamp_subsec_nanos`).
#[derive(Clone, Copy, Debug, PartialEq, Eq, Structural)]
pub struct Timestamp {
    pub seconds: i64,
    pub nanos: u32,
}

impl Timestamp {
    /// The instant `seconds` after the epoch, on the second.
    pub fn from_seconds(seconds: i64) -> (t: Timestamp)
        ensures
            t.seconds == seconds,
            t.nanos == 0,
    {
        Timestamp { seconds, nanos: 0 }
    }

    /// `self` is no later than `other`: instants are ordered by their seconds,
    /// then by their nanoseconds.
    pub open spec fn le(self, other: Timestamp) -> bool {
        self.seconds < other.seconds || (self.seconds == other.seconds && self.nanos <= other.nanos)
    }

    /// Whether `self` is no later than `other`.
    pub fn is_le(&self, other: &Timestamp) -> (r: bool)
        ensures
            r == self.le(*other),
    {
        self.seconds < other.seconds || (self.seconds == other.seconds && self.nanos <= other.nanos)
    }
}

/// Whether `y` is a leap year of the proleptic Gregorian calendar.
pub open spec fn is_leap_year(y: int) -> bool {
    y % 4 == 0 && (y % 100 != 0 || y % 400 == 0)
}

/// The number of days of month `m` of year `y`.
pub open spec fn days_in_month(y: int, m: int) -> int {
    if m == 2 {
        if is_leap_year(y) { 29 } else { 28 }
    } else if m == 4 || m == 6 || m == 9 || m == 11 {
        30
    } else {
        31
    }
}

/// Whether the civil date and time of day exist (no leap second).
pub open spec fn valid_civil(y: int, m: int, d: int, h: int, mi: int, s: int) -> bool {
    &&& 1 <= m <= 12
    &&& 1 <= d <= days_in_month(y, m)
    &&& 0 <= h < 24
    &&& 0 <= mi < 60
    &&& 0 <= s < 60
}

/// Days from 1970-01-01 to the given date of the proleptic Gregorian calendar
/// (the era/year-of-era count: 400-year eras of 146097 days, years starting in March).
pub open spec fn days_from_civil(y: int, m: int, d: int) -> int {
    let yy = if m <= 2 { y - 1 } else { y };
    let era = yy / 400;
    let yoe = yy - era * 400;
    let mp = if m > 2 { m - 3 } else { m + 9 };
    let doy = (153 * mp + 2) / 5 + d - 1;
    let doe = yoe * 365 + yoe / 4 - yoe / 100 + doy;
    era * 146097 + doe - 719468
}

/// Seconds from the epoch to the given civil date and time in UTC.
pub open spec fn civil_to_unix(y: int, m: int, d: int, h: int, mi: int, s: int) -> int {
    days_from_civil(y, m, d) * 86400 + h * 3600 + mi * 60 + s
}

/// chrono's `Utc.with_ymd_and_hms(..)`, read back with `timestamp()`. The
/// contract claims that the result exists exactly for an existing date and
/// time of day (seconds below 60), and is then the count of seconds since the
/// epoch; years are limited to 0..=9999, well inside chrono's range.
#[verifier::external_body]
pub(crate) fn utc_from_civil(year: i32, month: u32, day: u32, hour: u32, minute: u32, second: u32) -> (r:
    Option<i64>)
    requires
        0 <= year <= 9999,
    ensures
        r is Some <==> valid_civil(year as int, month as int, day as int, hour as int, minute as int, second as int),
        r matches Some(t) ==> t == civil_to_unix(year as int, month as int, day as int, hour as int, minute as int, second as int),
{
    chrono::Utc.with_ymd_and_hms(year, month, day, hour, minute, second).single().map(|dt| dt.timestamp())
}

/// The current instant, from chrono's `Utc::now()`; nothing is claimed of it.
#[verifier::external_body]
pub(crate) fn now() -> (t: Timestamp) {
    let dt = chrono::Utc::now();
    Timestamp { seconds: dt.timestamp(), nanos: dt.timestamp_subsec_nanos() }
}


/// The RFC 3339 text chrono gives an instant (`DateTime::to_rfc3339` of the
/// UTC date-time at `seconds` and `nanos`), when chrono can represent it.
pub uninterp spec fn rfc3339_text(seconds: i64, nanos: u32) -> Option<Seq<char>>;

/// The instant, as seconds and nanoseconds since the epoch, that chrono
/// reads from RFC 3339 text (`DateTime::parse_from_rfc3339`, then UTC).
pub uninterp spec fn rfc3339_instant(text: Seq<char>) -> Option<(i64, u32)>;

/// chrono's `DateTime::from_timestamp` followed by `to_rfc3339`; the text is
/// what chrono writes for that instant, `None` where chrono cannot
/// represent it.
#[verifier::external_body]
pub(crate) fn to_rfc3339(t: Timestamp) -> (r: Option<String>)
    ensures
        crate::ical::opt_view(r) == rfc3339_text(t.seconds, t.nanos),
{
    chrono::DateTime::from_timestamp(t.seconds, t.nanos).map(|dt| dt.to_rfc3339())
}

/// chrono's `DateTime::parse_from_rfc3339`, converted to UTC and read back
/// as seconds and nanoseconds; `None` where chrono refuses the text.
#[verifier::external_body]
pub(crate) fn parse_rfc3339(text: &str) -> (r: Option<Timestamp>)
    ensures
        match r {
            Some(t) => rfc3339_instant(text@) == Some((t.seconds, t.nanos)),
            None => rfc3339_instant(text@) is None,
        },
{
    chrono::DateTime::parse_from_rfc3339(text).ok().map(|dt| {
        let u = dt.with_timezone(&chrono::Utc);
        Timestamp { seconds: u.timestamp(), nanos: u.timestamp_subsec_nanos() }
    })
}

/// The days from 0000-03-01 to the March 1st that starts year `yy` (years
/// counted from March), as `days_from_civil` counts them.
spec fn days_before_year(yy: int) -> int {
    let era = yy / 400;
    let yoe = yy - era * 400;
    era * 146097 + yoe * 365 + yoe / 4 - yoe / 100
}

/// A year counted from March is 366 days long when the February that ends it
/// is a leap February, else 365.
proof fn lemma_year_length(yy: int)
    ensures
        days_before_year(yy + 1) - days_before_year(yy) == if is_leap_year(yy + 1) { 366int } else { 365int },
{
    let e = yy / 400;
    let r = yy - e * 400;
    assert(0 <= r < 400);
    if r == 399 {
        assert((yy + 1) / 400 == e + 1 && (yy + 1) % 400 == 0) by (nonlinear_arith)
            requires
                yy == e * 400 + 399,
        ;
        assert((yy + 1) % 4 == 0 && (yy + 1) % 100 == 0) by (nonlinear_arith)
            requires
                yy == e * 400 + 399,
        ;
        assert(days_before_year(yy) == e * 146097 + 145731);
        assert(days_before_year(yy + 1) == (e + 1) * 146097);
    } else {
        assert((yy + 1) / 400 == e && (yy + 1) % 400 == r + 1) by (nonlinear_arith)
            requires
                yy == e * 400 + r,
                0 <= r < 399,
        ;
        assert((yy + 1) % 4 == (r + 1) % 4 && (yy + 1) % 100 == (r + 1) % 100) by (nonlinear_arith)
            requires
                yy == e * 400 + r,
                0 <= r < 399,
        ;
        assert((r + 1) / 4 - r / 4 == if (r + 1) % 4 == 0 { 1int } else { 0int });
        assert((r + 1) / 100 - r / 100 == if (r + 1) % 100 == 0 { 1int } else { 0int });
        assert(days_before_year(yy) == e * 146097 + r * 365 + r / 4 - r / 100);
        assert(days_before_year(yy + 1) == e * 146097 + (r + 1) * 365 + (r + 1) / 4 - (r + 1) / 100);
    }
}

/// The day count is a calendar: 1970-01-01 is day zero, and each day of the
/// proleptic Gregorian calendar is followed by the next, within a month,
/// across the end of a month and across the end of a year.
pub proof fn law_days_are_consecutive(y: int, m: int, d: int)
    requires
        1 <= m <= 12,
        1 <= d <= days_in_month(y, m),
    ensures
        days_from_civil(1970, 1, 1) == 0,
        d < days_in_month(y, m) ==> days_from_civil(y, m, d + 1) == days_from_civil(y, m, d) + 1,
        d == days_in_month(y, m) && m < 12 ==> days_from_civil(y, m + 1, 1) == days_from_civil(y, m, d) + 1,
        d == days_in_month(y, m) && m == 12 ==> days_from_civil(y + 1, 1, 1) == days_from_civil(y, m, d) + 1,
{
    assert(days_from_civil(1970, 1, 1) == 0);
    if m == 2 {
        lemma_year_length(y - 1);
    }
}

} // verus!
