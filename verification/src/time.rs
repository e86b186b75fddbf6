//! Instants as chrono represents them, held as plain values: seconds since
//! 1970-01-01 00:00:00 UTC and the nanoseconds within that second.
use vstd::prelude::*;

verus! {

/// An instant: `secs` seconds after 1970-01-01 00:00:00 UTC plus `nanos`
/// nanoseconds (1_000_000_000 or more only within a leap second).
#[derive(Debug, Clone, Copy, PartialEq, Eq, Hash)]
pub struct UtcTime {
    pub secs: i64,
    pub nanos: u32,
}

pub open spec fn nanos_per_sec() -> int {
    1_000_000_000
}

/// The earliest second chrono represents: -262143-01-01 00:00:00.
pub open spec fn min_timestamp() -> int {
    -8_334_601_228_800
}

/// The latest second chrono represents: +262142-12-31 23:59:59.
pub open spec fn max_timestamp() -> int {
    8_210_266_876_799
}

pub open spec fn timestamp_in_range(secs: int) -> bool {
    min_timestamp() <= secs <= max_timestamp()
}

/// The instants that chrono's `NaiveDateTime` and `DateTime<Utc>` represent:
/// a second in range, and a leap second only as the last second of a minute.
pub open spec fn valid_time(t: UtcTime) -> bool {
    &&& timestamp_in_range(t.secs as int)
    &&& t.nanos < 2 * nanos_per_sec()
    &&& (t.nanos >= nanos_per_sec() ==> (t.secs as int) % 60 == 59)
}

/// The format of the commit dates kept in the record file.
pub open spec fn commit_date_format() -> Seq<char> {
    "%Y-%m-%dT%H:%M:%SZ"@
}

/// What `NaiveDateTime::parse_from_str(s, fmt)` yields, as the timestamp and
/// sub-second nanoseconds of the parsed date and time.
pub uninterp spec fn naive_datetime_from_str(s: Seq<char>, fmt: Seq<char>) -> Option<(i64, u32)>;

/// What formatting the date and time at (`secs`, `nanos`) with `fmt` yields.
pub uninterp spec fn naive_datetime_to_string(secs: i64, nanos: u32, fmt: Seq<char>) -> Seq<char>;

/// The current time, from `chrono::Utc::now`.
///
/// chrono reads the system clock; the reading is the duration since the Unix
/// epoch, so the seconds are not negative, and the nanoseconds are those of
/// a `Duration`, below one second. chrono panics where the clock stands
/// before 1970; nothing is said of which instant is returned.
#[verifier::external_body]
pub(crate) fn utc_now() -> (t: UtcTime)
    ensures
        0 <= t.secs <= max_timestamp(),
        t.nanos < nanos_per_sec(),
{
    let now = chrono::Utc::now();
    UtcTime { secs: now.timestamp(), nanos: now.timestamp_subsec_nanos() }
}

/// `chrono::NaiveDateTime::parse_from_str(s, fmt)`, the date and time taken
/// as a UTC instant.
///
/// The result is named, not described: it is `naive_datetime_from_str` of
/// the arguments; and a parsed date and time is one that chrono represents.
#[verifier::external_body]
pub(crate) fn parse_naive_datetime(s: &str, fmt: &str) -> (r: Option<UtcTime>)
    ensures
        r matches Some(t) ==> naive_datetime_from_str(s@, fmt@) == Some((t.secs, t.nanos))
            && valid_time(t),
        r is None ==> naive_datetime_from_str(s@, fmt@) is None,
{
    match chrono::NaiveDateTime::parse_from_str(s, fmt) {
        Ok(d) => {
            let u = d.and_utc();
            Some(UtcTime { secs: u.timestamp(), nanos: u.timestamp_subsec_nanos() })
        },
        Err(_) => None,
    }
}

/// The date and time at `t` formatted with `fmt`, through chrono's
/// `NaiveDateTime::format`; the text is `naive_datetime_to_string` of the
/// arguments. Only the commit-date format is admitted, which chrono can
/// always render.
#[verifier::external_body]
pub(crate) fn format_naive_datetime(t: UtcTime, fmt: &str) -> (r: String)
    requires
        valid_time(t),
        fmt@ == commit_date_format(),
    ensures
        r@ == naive_datetime_to_string(t.secs, t.nanos, fmt@),
{
    chrono::DateTime::from_timestamp(t.secs, t.nanos).unwrap().naive_utc().format(fmt).to_string()
}

/// Whether `a` is earlier than `b` (the order of `NaiveDateTime`).
pub open spec fn earlier(a: UtcTime, b: UtcTime) -> bool {
    a.secs < b.secs || (a.secs == b.secs && a.nanos < b.nanos)
}

impl UtcTime {
    /// Whether chrono represents this instant.
    pub fn is_valid(&self) -> (r: bool)
        ensures
            r == valid_time(*self),
    {
        if self.secs < -8_334_601_228_800i64 || self.secs > 8_210_266_876_799i64 || self.nanos
            >= 2_000_000_000 {
            return false;
        }
        // the earliest second is a multiple of 60, so the shift keeps the second of the minute
        let shifted = (self.secs + 8_334_601_228_800i64) as u64;
        self.nanos < 1_000_000_000 || shifted % 60 == 59
    }

    /// Whether `self` is earlier than `other`.
    pub fn is_before(&self, other: &UtcTime) -> (r: bool)
        ensures
            r == earlier(*self, *other),
    {
        self.secs < other.secs || (self.secs == other.secs && self.nanos < other.nanos)
    }
}

} // verus!
