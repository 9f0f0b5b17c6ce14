//! The calendar: dates as days since the epoch, and times of day.
use chrono::{Datelike, Timelike};
use vstd::prelude::*;

verus! {

/// Whether a year has a leap day, in the proleptic Gregorian calendar.
pub open spec fn is_leap(y: int) -> bool {
    y % 4 == 0 && (y % 100 != 0 || y % 400 == 0)
}

/// The number of days before a year, counted from the first day of year one.
pub open spec fn days_before_year(y: int) -> int {
    365 * (y - 1) + (y - 1) / 4 - (y - 1) / 100 + (y - 1) / 400
}

/// The number of days of a year before a month.
pub open spec fn days_before_month(y: int, m: int) -> int {
    let leap: int = if is_leap(y) {
        1
    } else {
        0
    };
    if m <= 1 {
        0
    } else if m == 2 {
        31
    } else if m == 3 {
        59 + leap
    } else if m == 4 {
        90 + leap
    } else if m == 5 {
        120 + leap
    } else if m == 6 {
        151 + leap
    } else if m == 7 {
        181 + leap
    } else if m == 8 {
        212 + leap
    } else if m == 9 {
        243 + leap
    } else if m == 10 {
        273 + leap
    } else if m == 11 {
        304 + leap
    } else if m == 12 {
        334 + leap
    } else {
        365 + leap
    }
}

/// The first and the last year with dates.
pub const FIRST_YEAR: i32 = -262143;

pub const LAST_YEAR: i32 = 262142;

/// The first and the last date, in days since the epoch.
pub const FIRST_DAY: i64 = -96465292;

pub const LAST_DAY: i64 = 95026236;

/// Whether a date exists.
pub open spec fn is_date(y: int, m: int, d: int) -> bool {
    &&& FIRST_YEAR <= y <= LAST_YEAR
    &&& 1 <= m <= 12
    &&& 1 <= d <= days_before_month(y, m + 1) - days_before_month(y, m)
}

/// The number of days from the first of January 1970 to a date.
pub open spec fn day_number(y: int, m: int, d: int) -> int {
    days_before_year(y) + days_before_month(y, m) + d - 719163
}

/// The date with a number of days since the epoch.
pub open spec fn date_of(days: int) -> (int, int, int) {
    choose|p: (int, int, int)| is_date(p.0, p.1, p.2) && #[trigger] day_number(p.0, p.1, p.2) == days
}

proof fn lemma_next_year(y: int)
    ensures
        days_before_year(y + 1) == days_before_year(y) + 365 + (if is_leap(y) {
            1int
        } else {
            0int
        }),
{
}

proof fn lemma_years_grow(a: int, b: int)
    requires
        a <= b,
    ensures
        days_before_year(a) <= days_before_year(b),
        a < b ==> days_before_year(a + 1) <= days_before_year(b),
    decreases b - a,
{
    if a < b {
        lemma_next_year(b - 1);
        lemma_years_grow(a, b - 1);
    }
}

/// A date is known by its number of days since the epoch.
pub proof fn day_numbers_are_distinct(y: int, m: int, d: int, z: int, n: int, e: int)
    requires
        is_date(y, m, d),
        is_date(z, n, e),
        day_number(y, m, d) == day_number(z, n, e),
    ensures
        y == z,
        m == n,
        d == e,
{
    lemma_next_year(y);
    lemma_next_year(z);
    if y < z {
        lemma_years_grow(y, z);
    }
    if z < y {
        lemma_years_grow(z, y);
    }
    assert(y == z);
    lemma_months_grow(y, m, n);
    lemma_months_grow(y, n, m);
}

proof fn lemma_months_grow(y: int, m: int, n: int)
    requires
        1 <= m <= 12,
        1 <= n <= 12,
    ensures
        m < n ==> days_before_month(y, m + 1) <= days_before_month(y, n),
{
}

/// The parts of a date lead back to it from its number of days since the epoch.
pub proof fn parts_of_a_date_lead_back(y: int, m: int, d: int)
    requires
        is_date(y, m, d),
    ensures
        date_of(day_number(y, m, d)) == (y, m, d),
{
    let p = date_of(day_number(y, m, d));
    let q = (y, m, d);
    assert(is_date(q.0, q.1, q.2) && day_number(q.0, q.1, q.2) == day_number(y, m, d));
    day_numbers_are_distinct(p.0, p.1, p.2, y, m, d);
}

/// The days since the epoch of a date, from `chrono::NaiveDate::from_ymd_opt`: none where the date
/// does not exist, and the difference in days to the first of January 1970 where it does.
#[verifier::external_body]
pub(crate) fn days_of_date(year: i32, month: u32, day: u32) -> (r: Option<i64>)
    ensures
        r is Some <==> is_date(year as int, month as int, day as int),
        r matches Some(days) ==> days == day_number(year as int, month as int, day as int),
{
    let date = chrono::NaiveDate::from_ymd_opt(year, month, day)?;
    let epoch = chrono::NaiveDate::from_ymd_opt(1970, 1, 1)?;
    Some(date.signed_duration_since(epoch).num_days())
}

/// Year, month and day of a number of days since the epoch, from the sum of a `chrono::NaiveDate`
/// and a `chrono::Duration`: the date that has this number.
#[verifier::external_body]
pub(crate) fn date_parts(days: i64) -> (r: (i32, u32, u32))
    requires
        FIRST_DAY <= days <= LAST_DAY,
    ensures
        is_date(r.0 as int, r.1 as int, r.2 as int),
        day_number(r.0 as int, r.1 as int, r.2 as int) == days,
{
    let date = chrono::NaiveDate::default() + chrono::Duration::days(days);
    (date.year(), date.month(), date.day())
}

/// The days since the epoch that `str::parse` into a `chrono::NaiveDate` reads from a text; none
/// where it reads no date.
pub uninterp spec fn parsed_date(s: Seq<char>) -> Option<i64>;

/// What `str::parse` into a `chrono::NaiveDate` reads from a text, as days since the epoch; they lie
/// between the first and the last date.
#[verifier::external_body]
pub(crate) fn parse_date(s: &str) -> (r: Option<i64>)
    ensures
        r == parsed_date(s@),
        r matches Some(days) ==> FIRST_DAY <= days <= LAST_DAY,
{
    let date = s.parse::<chrono::NaiveDate>().ok()?;
    let epoch = chrono::NaiveDate::default();
    Some(date.signed_duration_since(epoch).num_days())
}

/// A time of day by its parts. The nanoseconds reach beyond a second in a leap second.
#[derive(Clone, Copy, Debug, PartialEq, Eq, Structural)]
pub struct TimeParts {
    pub hour: u32,
    pub minute: u32,
    pub second: u32,
    pub nanosecond: u32,
}

/// Whether a time of day exists. Only in the last second of a minute may the nanoseconds reach
/// beyond a second.
pub open spec fn is_time(t: TimeParts) -> bool {
    &&& t.hour < 24
    &&& t.minute < 60
    &&& t.second < 60
    &&& t.nanosecond < 2_000_000_000
    &&& t.nanosecond >= 1_000_000_000 ==> t.second == 59
}

/// The microseconds from midnight to a time of day.
pub open spec fn micros_of_time(t: TimeParts) -> int {
    t.hour * 3_600_000_000 + t.minute * 60_000_000 + t.second * 1_000_000 + t.nanosecond / 1000
}

/// The parts of a time of day that is given in microseconds.
pub open spec fn time_with_micros(hour: u32, minute: u32, second: u32, micro: u32) -> TimeParts {
    TimeParts { hour, minute, second, nanosecond: (micro * 1000) as u32 }
}

/// Whether a time of day that is given in microseconds exists.
pub open spec fn is_time_with_micros(hour: u32, minute: u32, second: u32, micro: u32) -> bool {
    micro * 1000 <= u32::MAX && is_time(time_with_micros(hour, minute, second, micro))
}

/// The parts of a time of day, from `chrono::NaiveTime::from_hms_micro_opt`: none where the time
/// does not exist.
#[verifier::external_body]
pub(crate) fn time_of_parts(hour: u32, minute: u32, second: u32, micro: u32) -> (r: Option<TimeParts>)
    ensures
        r is Some <==> is_time_with_micros(hour, minute, second, micro),
        r matches Some(t) ==> t == time_with_micros(hour, minute, second, micro),
{
    let t = chrono::NaiveTime::from_hms_micro_opt(hour, minute, second, micro)?;
    Some(TimeParts { hour: t.hour(), minute: t.minute(), second: t.second(), nanosecond: t.nanosecond() })
}

/// The parts of the time of day that `chrono::NaiveTime::parse_from_str` reads from a text in a
/// format; none where it reads no time.
pub uninterp spec fn parsed_time(s: Seq<char>, format: Seq<char>) -> Option<TimeParts>;

/// What `chrono::NaiveTime::parse_from_str` reads from a text in a format; the parts are those of a
/// time of day that exists.
#[verifier::external_body]
pub(crate) fn parse_time(s: &str, format: &str) -> (r: Option<TimeParts>)
    ensures
        r == parsed_time(s@, format@),
        r matches Some(t) ==> t.hour < 24 && t.minute < 60 && t.second < 60 && t.nanosecond < 2_000_000_000,
{
    let t = chrono::NaiveTime::parse_from_str(s, format).ok()?;
    Some(TimeParts { hour: t.hour(), minute: t.minute(), second: t.second(), nanosecond: t.nanosecond() })
}

/// The microseconds since the epoch that `chrono::NaiveDateTime::parse_from_str` reads from a text in
/// a format; none where it reads no moment.
pub uninterp spec fn parsed_moment(s: Seq<char>, format: Seq<char>) -> Option<i64>;

/// What `chrono::NaiveDateTime::parse_from_str` reads from a text in a format, as microseconds since
/// the epoch.
#[verifier::external_body]
pub(crate) fn parse_moment(s: &str, format: &str) -> (r: Option<i64>)
    ensures
        r == parsed_moment(s@, format@),
{
    let t = chrono::NaiveDateTime::parse_from_str(s, format).ok()?;
    Some(t.and_utc().timestamp_micros())
}

/// The microseconds since the epoch and the offset in seconds that
/// `chrono::DateTime::parse_from_rfc3339` reads from a text; none where it reads no moment.
pub uninterp spec fn parsed_zoned_moment(s: Seq<char>) -> Option<(i64, i32)>;

/// What `chrono::DateTime::parse_from_rfc3339` reads from a text, as microseconds since the epoch
/// and the offset from universal time in seconds.
#[verifier::external_body]
pub(crate) fn parse_zoned_moment(s: &str) -> (r: Option<(i64, i32)>)
    ensures
        r == parsed_zoned_moment(s@),
{
    let t = chrono::DateTime::parse_from_rfc3339(s).ok()?;
    Some((t.timestamp_micros(), t.offset().local_minus_utc()))
}

/// The microseconds since the epoch of a time on a date.
pub open spec fn micros_of_moment(y: int, m: int, d: int, t: TimeParts) -> int {
    day_number(y, m, d) * 86_400_000_000 + micros_of_time(t)
}

/// Whether a date exists, and a time of day that is given in microseconds.
pub open spec fn is_moment(year: i32, month: u32, day: u32, hour: u32, minute: u32, second: u32, micro: u32) -> bool {
    is_date(year as int, month as int, day as int) && is_time_with_micros(hour, minute, second, micro)
}

/// The microseconds since the epoch of a time on a date, from `chrono::NaiveDate::and_hms_micro_opt`
/// and `chrono::DateTime::timestamp_micros`: none where the date or the time does not exist.
#[verifier::external_body]
pub(crate) fn micros_of_parts(year: i32, month: u32, day: u32, hour: u32, minute: u32, second: u32, micro: u32) -> (r: Option<i64>)
    ensures
        r is Some <==> is_moment(year, month, day, hour, minute, second, micro),
        r matches Some(us) ==> us == micros_of_moment(
            year as int,
            month as int,
            day as int,
            time_with_micros(hour, minute, second, micro),
        ),
{
    let date = chrono::NaiveDate::from_ymd_opt(year, month, day)?;
    let t = date.and_hms_micro_opt(hour, minute, second, micro)?;
    Some(t.and_utc().timestamp_micros())
}

} // verus!
