//! Dates, times of day, moments and durations.
use vstd::prelude::*;

use crate::division::{truncated_quotient, truncated_remainder};
use crate::procedure::calendar::{
    date_of, date_parts, day_number, day_numbers_are_distinct, days_of_date, is_date, is_moment, is_time_with_micros,
    micros_of_moment, micros_of_parts, micros_of_time, parse_date, parse_moment, parse_time, parse_zoned_moment, parsed_date,
    parsed_moment, parsed_time, parsed_zoned_moment, parts_of_a_date_lead_back, time_of_parts, time_with_micros, TimeParts, FIRST_DAY, LAST_DAY,
};
use crate::procedure::codes::MgpError;
use crate::procedure::duration::{duration_fits, parse_duration_str, read_duration, reads_fractions};
use crate::procedure::entities::given;
use crate::procedure::memory::mgp_memory;
use crate::procedure::value::{
    flag, mgp_date, mgp_duration, mgp_local_date_time, mgp_local_time, mgp_value, mgp_value_make_date, mgp_value_make_duration,
    mgp_value_make_local_date_time, mgp_value_make_local_time, mgp_value_make_zoned_date_time, mgp_zoned_date_time, opt_view,
    to_flag, Val, ZonedTime,
};

verus! {

/// The microseconds of a day.
pub const DAY: i64 = 86_400_000_000;

fn divided(a: i64, b: i64) -> (r: i64)
    requires
        b > 0,
    ensures
        r == truncated_quotient(a as int, b as int),
{
    proof {
        lemma_quotient_fits(a as int, b as int);
    }
    a / b
}

proof fn lemma_quotient_fits(a: int, b: int)
    requires
        b > 0,
        i64::MIN <= a <= i64::MAX,
    ensures
        i64::MIN <= truncated_quotient(a, b) <= i64::MAX,
{
    if a >= 0 {
        assert(0 <= a / b <= a) by (nonlinear_arith)
            requires
                a >= 0,
                b > 0,
        ;
    } else {
        let c = -a;
        assert(0 <= c / b <= c) by (nonlinear_arith)
            requires
                c >= 0,
                b > 0,
        ;
    }
}

fn remainder(a: i64, b: i64) -> (r: i64)
    requires
        b > 0,
    ensures
        r == truncated_remainder(a as int, b as int),
        -b < r < b,
{
    a % b
}

/// Extract the time-of-day components from microseconds since midnight: hours, minutes, seconds,
/// milliseconds and microseconds.
pub open spec fn time_parts(micros: int) -> (int, int, int, int, int) {
    (
        truncated_quotient(micros, 3_600_000_000),
        truncated_quotient(truncated_remainder(micros, 3_600_000_000), 60_000_000),
        truncated_quotient(truncated_remainder(micros, 60_000_000), 1_000_000),
        truncated_quotient(truncated_remainder(micros, 1_000_000), 1_000),
        truncated_remainder(micros, 1_000),
    )
}

/// Extract time-of-day component from micros since midnight.
pub fn time_parts_from_micros(micros: i64) -> (r: (i64, i64, i64, i64, i64))
    ensures
        (r.0 as int, r.1 as int, r.2 as int, r.3 as int, r.4 as int) == time_parts(micros as int),
{
    let hour: i64 = divided(micros, 3_600_000_000);
    let minute: i64 = divided(remainder(micros, 3_600_000_000), 60_000_000);
    let second: i64 = divided(remainder(micros, 60_000_000), 1_000_000);
    let millisecond: i64 = divided(remainder(micros, 1_000_000), 1_000);
    let microsecond: i64 = remainder(micros, 1_000);
    (hour, minute, second, millisecond, microsecond)
}

/// The parts of a time of day add up to it.
pub proof fn time_parts_add_up(micros: int)
    requires
        micros >= 0,
    ensures
        ({
            let p = time_parts(micros);
            p.0 * 3_600_000_000 + p.1 * 60_000_000 + p.2 * 1_000_000 + p.3 * 1_000 + p.4 == micros
        }),
{
}

/// The day of a moment, from its microseconds since the epoch: the days since the epoch, rounded
/// down.
pub open spec fn whole_days(micros: int) -> int {
    micros / DAY as int
}

/// The microseconds of a moment since midnight, from its microseconds since the epoch.
pub open spec fn rest_of_day(micros: int) -> int {
    micros % DAY as int
}

fn day_of(micros: i64) -> (r: i64)
    ensures
        r == whole_days(micros as int),
{
    if micros >= 0 {
        micros / DAY
    } else {
        (micros + 1) / DAY - 1
    }
}

fn since_midnight(micros: i64) -> (r: i64)
    ensures
        r == rest_of_day(micros as int),
{
    let r: i64 = remainder(micros, DAY);
    if r < 0 {
        r + DAY
    } else {
        r
    }
}

/// Whether a number of days since the epoch has a date.
pub open spec fn has_date(days: int) -> bool {
    FIRST_DAY <= days <= LAST_DAY
}

fn parts_of_days(days: i64) -> (r: (i64, i64, i64))
    requires
        has_date(days as int),
    ensures
        (r.0 as int, r.1 as int, r.2 as int) == date_of(days as int),
{
    let (y, m, d) = date_parts(days);
    proof {
        let p = (y as int, m as int, d as int);
        assert(is_date(p.0, p.1, p.2) && day_number(p.0, p.1, p.2) == days);
        let q = date_of(days as int);
        day_numbers_are_distinct(q.0, q.1, q.2, p.0, p.1, p.2);
    }
    (y as i64, m as i64, d as i64)
}

/// Extract date component from local_date_time micros (epoch-based).
pub fn ldt_date_parts(micros: i64) -> (r: (i64, i64, i64))
    requires
        has_date(whole_days(micros as int)),
    ensures
        (r.0 as int, r.1 as int, r.2 as int) == date_of(whole_days(micros as int)),
{
    parts_of_days(day_of(micros))
}

/// Tells the year of a date.
pub fn mgp_date_get_year(date: Option<&mgp_date>, result: Option<&mut i64>) -> (e: MgpError)
    requires
        date is Some && result is Some ==> has_date(date->0.days as int),
    ensures
        e == given(date is None || result is None),
        result matches Some(r) ==> *final(r) == match date {
            Some(x) => date_of(x.days as int).0,
            None => *r as int,
        },
{
    match (date, result) {
        (Some(x), Some(r)) => {
            *r = parts_of_days(x.days).0;
            MgpError::NoError
        },
        _ => MgpError::InvalidArgument,
    }
}

/// Tells the month of a date.
pub fn mgp_date_get_month(date: Option<&mgp_date>, result: Option<&mut i64>) -> (e: MgpError)
    requires
        date is Some && result is Some ==> has_date(date->0.days as int),
    ensures
        e == given(date is None || result is None),
        result matches Some(r) ==> *final(r) == match date {
            Some(x) => date_of(x.days as int).1,
            None => *r as int,
        },
{
    match (date, result) {
        (Some(x), Some(r)) => {
            *r = parts_of_days(x.days).1;
            MgpError::NoError
        },
        _ => MgpError::InvalidArgument,
    }
}

/// Tells the day of a date.
pub fn mgp_date_get_day(date: Option<&mgp_date>, result: Option<&mut i64>) -> (e: MgpError)
    requires
        date is Some && result is Some ==> has_date(date->0.days as int),
    ensures
        e == given(date is None || result is None),
        result matches Some(r) ==> *final(r) == match date {
            Some(x) => date_of(x.days as int).2,
            None => *r as int,
        },
{
    match (date, result) {
        (Some(x), Some(r)) => {
            *r = parts_of_days(x.days).2;
            MgpError::NoError
        },
        _ => MgpError::InvalidArgument,
    }
}

/// Tells the seconds from the epoch to a date.
pub fn mgp_date_timestamp(date: Option<&mgp_date>, result: Option<&mut i64>) -> (e: MgpError)
    requires
        date is Some && result is Some ==> i64::MIN <= date->0.days * 86400 <= i64::MAX,
    ensures
        e == given(date is None || result is None),
        result matches Some(r) ==> *final(r) == match date {
            Some(x) => x.days * 86400,
            None => *r as int,
        },
{
    match (date, result) {
        (Some(x), Some(r)) => {
            *r = x.days * 86400;
            MgpError::NoError
        },
        _ => MgpError::InvalidArgument,
    }
}

/// Tells the hour of a time of day.
pub fn mgp_local_time_get_hour(time: Option<&mgp_local_time>, result: Option<&mut i64>) -> (e: MgpError)
    ensures
        e == given(time is None || result is None),
        result matches Some(r) ==> *final(r) == match time {
            Some(x) => time_parts(x.micros as int).0,
            None => *r as int,
        },
{
    match (time, result) {
        (Some(x), Some(r)) => {
            *r = time_parts_from_micros(x.micros).0;
            MgpError::NoError
        },
        _ => MgpError::InvalidArgument,
    }
}

/// Tells the minute of a time of day.
pub fn mgp_local_time_get_minute(time: Option<&mgp_local_time>, result: Option<&mut i64>) -> (e: MgpError)
    ensures
        e == given(time is None || result is None),
        result matches Some(r) ==> *final(r) == match time {
            Some(x) => time_parts(x.micros as int).1,
            None => *r as int,
        },
{
    match (time, result) {
        (Some(x), Some(r)) => {
            *r = time_parts_from_micros(x.micros).1;
            MgpError::NoError
        },
        _ => MgpError::InvalidArgument,
    }
}

/// Tells the second of a time of day.
pub fn mgp_local_time_get_second(time: Option<&mgp_local_time>, result: Option<&mut i64>) -> (e: MgpError)
    ensures
        e == given(time is None || result is None),
        result matches Some(r) ==> *final(r) == match time {
            Some(x) => time_parts(x.micros as int).2,
            None => *r as int,
        },
{
    match (time, result) {
        (Some(x), Some(r)) => {
            *r = time_parts_from_micros(x.micros).2;
            MgpError::NoError
        },
        _ => MgpError::InvalidArgument,
    }
}

/// Tells the millisecond of a time of day.
pub fn mgp_local_time_get_millisecond(time: Option<&mgp_local_time>, result: Option<&mut i64>) -> (e: MgpError)
    ensures
        e == given(time is None || result is None),
        result matches Some(r) ==> *final(r) == match time {
            Some(x) => time_parts(x.micros as int).3,
            None => *r as int,
        },
{
    match (time, result) {
        (Some(x), Some(r)) => {
            *r = time_parts_from_micros(x.micros).3;
            MgpError::NoError
        },
        _ => MgpError::InvalidArgument,
    }
}

/// Tells the microsecond of a time of day.
pub fn mgp_local_time_get_microsecond(time: Option<&mgp_local_time>, result: Option<&mut i64>) -> (e: MgpError)
    ensures
        e == given(time is None || result is None),
        result matches Some(r) ==> *final(r) == match time {
            Some(x) => time_parts(x.micros as int).4,
            None => *r as int,
        },
{
    match (time, result) {
        (Some(x), Some(r)) => {
            *r = time_parts_from_micros(x.micros).4;
            MgpError::NoError
        },
        _ => MgpError::InvalidArgument,
    }
}

/// Tells the microseconds from midnight to a time of day.
pub fn mgp_local_time_timestamp(time: Option<&mgp_local_time>, result: Option<&mut i64>) -> (e: MgpError)
    ensures
        e == given(time is None || result is None),
        result matches Some(r) ==> *final(r) == match time {
            Some(x) => x.micros as int,
            None => *r as int,
        },
{
    match (time, result) {
        (Some(x), Some(r)) => {
            *r = x.micros;
            MgpError::NoError
        },
        _ => MgpError::InvalidArgument,
    }
}

/// Tells the year of a moment.
pub fn mgp_local_date_time_get_year(dt: Option<&mgp_local_date_time>, result: Option<&mut i64>) -> (e: MgpError)
    requires
        dt is Some && result is Some ==> has_date(whole_days(dt->0.micros as int)),
    ensures
        e == given(dt is None || result is None),
        result matches Some(r) ==> *final(r) == match dt {
            Some(x) => date_of(whole_days(x.micros as int)).0,
            None => *r as int,
        },
{
    match (dt, result) {
        (Some(x), Some(r)) => {
            *r = ldt_date_parts(x.micros).0;
            MgpError::NoError
        },
        _ => MgpError::InvalidArgument,
    }
}

/// Tells the month of a moment.
pub fn mgp_local_date_time_get_month(dt: Option<&mgp_local_date_time>, result: Option<&mut i64>) -> (e: MgpError)
    requires
        dt is Some && result is Some ==> has_date(whole_days(dt->0.micros as int)),
    ensures
        e == given(dt is None || result is None),
        result matches Some(r) ==> *final(r) == match dt {
            Some(x) => date_of(whole_days(x.micros as int)).1,
            None => *r as int,
        },
{
    match (dt, result) {
        (Some(x), Some(r)) => {
            *r = ldt_date_parts(x.micros).1;
            MgpError::NoError
        },
        _ => MgpError::InvalidArgument,
    }
}

/// Tells the day of a moment.
pub fn mgp_local_date_time_get_day(dt: Option<&mgp_local_date_time>, result: Option<&mut i64>) -> (e: MgpError)
    requires
        dt is Some && result is Some ==> has_date(whole_days(dt->0.micros as int)),
    ensures
        e == given(dt is None || result is None),
        result matches Some(r) ==> *final(r) == match dt {
            Some(x) => date_of(whole_days(x.micros as int)).2,
            None => *r as int,
        },
{
    match (dt, result) {
        (Some(x), Some(r)) => {
            *r = ldt_date_parts(x.micros).2;
            MgpError::NoError
        },
        _ => MgpError::InvalidArgument,
    }
}

/// Tells the hour of a moment.
pub fn mgp_local_date_time_get_hour(dt: Option<&mgp_local_date_time>, result: Option<&mut i64>) -> (e: MgpError)
    ensures
        e == given(dt is None || result is None),
        result matches Some(r) ==> *final(r) == match dt {
            Some(x) => time_parts(rest_of_day(x.micros as int)).0,
            None => *r as int,
        },
{
    match (dt, result) {
        (Some(x), Some(r)) => {
            *r = time_parts_from_micros(since_midnight(x.micros)).0;
            MgpError::NoError
        },
        _ => MgpError::InvalidArgument,
    }
}

/// Tells the minute of a moment.
pub fn mgp_local_date_time_get_minute(dt: Option<&mgp_local_date_time>, result: Option<&mut i64>) -> (e: MgpError)
    ensures
        e == given(dt is None || result is None),
        result matches Some(r) ==> *final(r) == match dt {
            Some(x) => time_parts(rest_of_day(x.micros as int)).1,
            None => *r as int,
        },
{
    match (dt, result) {
        (Some(x), Some(r)) => {
            *r = time_parts_from_micros(since_midnight(x.micros)).1;
            MgpError::NoError
        },
        _ => MgpError::InvalidArgument,
    }
}

/// Tells the second of a moment.
pub fn mgp_local_date_time_get_second(dt: Option<&mgp_local_date_time>, result: Option<&mut i64>) -> (e: MgpError)
    ensures
        e == given(dt is None || result is None),
        result matches Some(r) ==> *final(r) == match dt {
            Some(x) => time_parts(rest_of_day(x.micros as int)).2,
            None => *r as int,
        },
{
    match (dt, result) {
        (Some(x), Some(r)) => {
            *r = time_parts_from_micros(since_midnight(x.micros)).2;
            MgpError::NoError
        },
        _ => MgpError::InvalidArgument,
    }
}

/// Tells the millisecond of a moment.
pub fn mgp_local_date_time_get_millisecond(dt: Option<&mgp_local_date_time>, result: Option<&mut i64>) -> (e: MgpError)
    ensures
        e == given(dt is None || result is None),
        result matches Some(r) ==> *final(r) == match dt {
            Some(x) => time_parts(rest_of_day(x.micros as int)).3,
            None => *r as int,
        },
{
    match (dt, result) {
        (Some(x), Some(r)) => {
            *r = time_parts_from_micros(since_midnight(x.micros)).3;
            MgpError::NoError
        },
        _ => MgpError::InvalidArgument,
    }
}

/// Tells the microsecond of a moment.
pub fn mgp_local_date_time_get_microsecond(dt: Option<&mgp_local_date_time>, result: Option<&mut i64>) -> (e: MgpError)
    ensures
        e == given(dt is None || result is None),
        result matches Some(r) ==> *final(r) == match dt {
            Some(x) => time_parts(rest_of_day(x.micros as int)).4,
            None => *r as int,
        },
{
    match (dt, result) {
        (Some(x), Some(r)) => {
            *r = time_parts_from_micros(since_midnight(x.micros)).4;
            MgpError::NoError
        },
        _ => MgpError::InvalidArgument,
    }
}

/// Tells the microseconds from the epoch to a moment.
pub fn mgp_local_date_time_timestamp(dt: Option<&mgp_local_date_time>, result: Option<&mut i64>) -> (e: MgpError)
    ensures
        e == given(dt is None || result is None),
        result matches Some(r) ==> *final(r) == match dt {
            Some(x) => x.micros as int,
            None => *r as int,
        },
{
    match (dt, result) {
        (Some(x), Some(r)) => {
            *r = x.micros;
            MgpError::NoError
        },
        _ => MgpError::InvalidArgument,
    }
}

/// Tells the year of a moment in a time zone.
pub fn mgp_zoned_date_time_get_year(zdt: Option<&mgp_zoned_date_time>, result: Option<&mut i64>) -> (e: MgpError)
    requires
        zdt is Some && result is Some ==> has_date(whole_days(zdt->0.micros as int)),
    ensures
        e == given(zdt is None || result is None),
        result matches Some(r) ==> *final(r) == match zdt {
            Some(x) => date_of(whole_days(x.micros as int)).0,
            None => *r as int,
        },
{
    match (zdt, result) {
        (Some(x), Some(r)) => {
            *r = ldt_date_parts(x.micros).0;
            MgpError::NoError
        },
        _ => MgpError::InvalidArgument,
    }
}

/// Tells the month of a moment in a time zone.
pub fn mgp_zoned_date_time_get_month(zdt: Option<&mgp_zoned_date_time>, result: Option<&mut i64>) -> (e: MgpError)
    requires
        zdt is Some && result is Some ==> has_date(whole_days(zdt->0.micros as int)),
    ensures
        e == given(zdt is None || result is None),
        result matches Some(r) ==> *final(r) == match zdt {
            Some(x) => date_of(whole_days(x.micros as int)).1,
            None => *r as int,
        },
{
    match (zdt, result) {
        (Some(x), Some(r)) => {
            *r = ldt_date_parts(x.micros).1;
            MgpError::NoError
        },
        _ => MgpError::InvalidArgument,
    }
}

/// Tells the day of a moment in a time zone.
pub fn mgp_zoned_date_time_get_day(zdt: Option<&mgp_zoned_date_time>, result: Option<&mut i64>) -> (e: MgpError)
    requires
        zdt is Some && result is Some ==> has_date(whole_days(zdt->0.micros as int)),
    ensures
        e == given(zdt is None || result is None),
        result matches Some(r) ==> *final(r) == match zdt {
            Some(x) => date_of(whole_days(x.micros as int)).2,
            None => *r as int,
        },
{
    match (zdt, result) {
        (Some(x), Some(r)) => {
            *r = ldt_date_parts(x.micros).2;
            MgpError::NoError
        },
        _ => MgpError::InvalidArgument,
    }
}

/// Tells the hour of a moment in a time zone.
pub fn mgp_zoned_date_time_get_hour(zdt: Option<&mgp_zoned_date_time>, result: Option<&mut i64>) -> (e: MgpError)
    ensures
        e == given(zdt is None || result is None),
        result matches Some(r) ==> *final(r) == match zdt {
            Some(x) => time_parts(rest_of_day(x.micros as int)).0,
            None => *r as int,
        },
{
    match (zdt, result) {
        (Some(x), Some(r)) => {
            *r = time_parts_from_micros(since_midnight(x.micros)).0;
            MgpError::NoError
        },
        _ => MgpError::InvalidArgument,
    }
}

/// Tells the minute of a moment in a time zone.
pub fn mgp_zoned_date_time_get_minute(zdt: Option<&mgp_zoned_date_time>, result: Option<&mut i64>) -> (e: MgpError)
    ensures
        e == given(zdt is None || result is None),
        result matches Some(r) ==> *final(r) == match zdt {
            Some(x) => time_parts(rest_of_day(x.micros as int)).1,
            None => *r as int,
        },
{
    match (zdt, result) {
        (Some(x), Some(r)) => {
            *r = time_parts_from_micros(since_midnight(x.micros)).1;
            MgpError::NoError
        },
        _ => MgpError::InvalidArgument,
    }
}

/// Tells the second of a moment in a time zone.
pub fn mgp_zoned_date_time_get_second(zdt: Option<&mgp_zoned_date_time>, result: Option<&mut i64>) -> (e: MgpError)
    ensures
        e == given(zdt is None || result is None),
        result matches Some(r) ==> *final(r) == match zdt {
            Some(x) => time_parts(rest_of_day(x.micros as int)).2,
            None => *r as int,
        },
{
    match (zdt, result) {
        (Some(x), Some(r)) => {
            *r = time_parts_from_micros(since_midnight(x.micros)).2;
            MgpError::NoError
        },
        _ => MgpError::InvalidArgument,
    }
}

/// Tells the millisecond of a moment in a time zone.
pub fn mgp_zoned_date_time_get_millisecond(zdt: Option<&mgp_zoned_date_time>, result: Option<&mut i64>) -> (e: MgpError)
    ensures
        e == given(zdt is None || result is None),
        result matches Some(r) ==> *final(r) == match zdt {
            Some(x) => time_parts(rest_of_day(x.micros as int)).3,
            None => *r as int,
        },
{
    match (zdt, result) {
        (Some(x), Some(r)) => {
            *r = time_parts_from_micros(since_midnight(x.micros)).3;
            MgpError::NoError
        },
        _ => MgpError::InvalidArgument,
    }
}

/// Tells the microsecond of a moment in a time zone.
pub fn mgp_zoned_date_time_get_microsecond(zdt: Option<&mgp_zoned_date_time>, result: Option<&mut i64>) -> (e: MgpError)
    ensures
        e == given(zdt is None || result is None),
        result matches Some(r) ==> *final(r) == match zdt {
            Some(x) => time_parts(rest_of_day(x.micros as int)).4,
            None => *r as int,
        },
{
    match (zdt, result) {
        (Some(x), Some(r)) => {
            *r = time_parts_from_micros(since_midnight(x.micros)).4;
            MgpError::NoError
        },
        _ => MgpError::InvalidArgument,
    }
}

/// Tells the microseconds from the epoch to a moment in a time zone.
pub fn mgp_zoned_date_time_timestamp(zdt: Option<&mgp_zoned_date_time>, result: Option<&mut i64>) -> (e: MgpError)
    ensures
        e == given(zdt is None || result is None),
        result matches Some(r) ==> *final(r) == match zdt {
            Some(x) => x.micros as int,
            None => *r as int,
        },
{
    match (zdt, result) {
        (Some(x), Some(r)) => {
            *r = x.micros;
            MgpError::NoError
        },
        _ => MgpError::InvalidArgument,
    }
}

/// Tells the offset of a time zone.
pub fn mgp_zoned_date_time_get_offset(zdt: Option<&mgp_zoned_date_time>, result: Option<&mut i64>) -> (e: MgpError)
    ensures
        e == given(zdt is None || result is None),
        result matches Some(r) ==> *final(r) == match zdt {
            Some(x) => x.offset as int,
            None => *r as int,
        },
{
    match (zdt, result) {
        (Some(x), Some(r)) => {
            *r = x.offset as i64;
            MgpError::NoError
        },
        _ => MgpError::InvalidArgument,
    }
}

/// Tells the microseconds of a duration.
pub fn mgp_duration_get_microseconds(dur: Option<&mgp_duration>, result: Option<&mut i64>) -> (e: MgpError)
    ensures
        e == given(dur is None || result is None),
        result matches Some(r) ==> *final(r) == match dur {
            Some(x) => x.micros as int,
            None => *r as int,
        },
{
    match (dur, result) {
        (Some(x), Some(r)) => {
            *r = x.micros;
            MgpError::NoError
        },
        _ => MgpError::InvalidArgument,
    }
}

/// Hands out the name of a time zone.
pub fn mgp_zoned_date_time_get_timezone(zdt: Option<&mgp_zoned_date_time>, result: Option<&mut Option<String>>) -> (e: MgpError)
    ensures
        e == given(zdt is None || result is None),
        result matches Some(r) ==> opt_view(*final(r)) == match zdt {
            Some(x) => Some(x.tz@),
            None => opt_view(*r),
        },
{
    match (zdt, result) {
        (Some(x), Some(r)) => {
            *r = Some(x.tz.clone());
            MgpError::NoError
        },
        _ => MgpError::InvalidArgument,
    }
}

/// Makes today's date, from the seconds since the epoch.
pub fn mgp_date_now(unix_seconds: u64, memory: Option<&mgp_memory>, result: Option<&mut Option<mgp_value>>) -> (e: MgpError)
    ensures
        e == given(result is None),
        result matches Some(r) ==> opt_view(*final(r)) == Some(Val::Date((unix_seconds as int / 86400) as i64)),
{
    mgp_value_make_date((unix_seconds / 86400) as i64, memory, result)
}

/// Makes the time of day, from the microseconds since the epoch.
pub fn mgp_local_time_now(unix_micros: i64, memory: Option<&mgp_memory>, result: Option<&mut Option<mgp_value>>) -> (e: MgpError)
    ensures
        e == given(result is None),
        result matches Some(r) ==> opt_view(*final(r)) == Some(Val::LocalTime(rest_of_day(unix_micros as int) as i64)),
{
    mgp_value_make_local_time(since_midnight(unix_micros), memory, result)
}

/// Makes the moment, from the microseconds since the epoch.
pub fn mgp_local_date_time_now(unix_micros: i64, memory: Option<&mgp_memory>, result: Option<&mut Option<mgp_value>>) -> (e: MgpError)
    ensures
        e == given(result is None),
        result matches Some(r) ==> opt_view(*final(r)) == Some(Val::LocalDateTime(unix_micros)),
{
    mgp_value_make_local_date_time(unix_micros, memory, result)
}

/// Makes the moment in universal time, from the microseconds since the epoch.
pub fn mgp_zoned_date_time_now(unix_micros: i64, memory: Option<&mgp_memory>, result: Option<&mut Option<mgp_value>>) -> (e: MgpError)
    ensures
        e == given(result is None),
        result matches Some(r) ==> opt_view(*final(r)) == Some(
            Val::ZonedDateTime(ZonedTime { micros: unix_micros, offset: 0, tz: "UTC"@ }),
        ),
{
    mgp_value_make_zoned_date_time(unix_micros, 0, Some("UTC"), memory, result)
}

/// Makes a duration of microseconds.
pub fn mgp_duration_from_microseconds(micros: i64, memory: Option<&mgp_memory>, result: Option<&mut Option<mgp_value>>) -> (e: MgpError)
    ensures
        e == given(result is None),
        result matches Some(r) ==> opt_view(*final(r)) == Some(Val::Duration(mgp_duration { months: 0, days: 0, micros })),
{
    mgp_value_make_duration(0, 0, micros, memory, result)
}

/// Makes a duration of its parts.
pub fn mgp_duration_from_parameters(
    months: i64,
    days: i64,
    microseconds: i64,
    memory: Option<&mgp_memory>,
    result: Option<&mut Option<mgp_value>>,
) -> (e: MgpError)
    ensures
        e == given(result is None),
        result matches Some(r) ==> opt_view(*final(r)) == Some(
            Val::Duration(mgp_duration { months, days, micros: microseconds }),
        ),
{
    mgp_value_make_duration(months, days, microseconds, memory, result)
}

/// Whether an integer is one of the machine's.
pub open spec fn fits(n: int) -> bool {
    i64::MIN <= n <= i64::MAX
}

/// The date some months and days after a date; a month counts thirty days.
pub open spec fn date_plus(days: int, d: mgp_duration) -> int {
    days + d.days + d.months * 30
}

/// The date some months and days before a date; a month counts thirty days.
pub open spec fn date_minus(days: int, d: mgp_duration) -> int {
    days - d.days - d.months * 30
}

/// The moment some time after a moment; a month counts thirty days.
pub open spec fn moment_plus(micros: int, d: mgp_duration) -> int {
    micros + d.micros + d.days * DAY + d.months * 30 * DAY
}

/// The moment some time before a moment; a month counts thirty days.
pub open spec fn moment_minus(micros: int, d: mgp_duration) -> int {
    micros - d.micros - d.days * DAY - d.months * 30 * DAY
}

/// Whether a date and a duration can be added within the machine's integers.
pub open spec fn date_plus_fits(days: int, d: mgp_duration) -> bool {
    fits(days + d.days) && fits(d.months * 30) && fits(date_plus(days, d))
}

pub open spec fn date_minus_fits(days: int, d: mgp_duration) -> bool {
    fits(days - d.days) && fits(d.months * 30) && fits(date_minus(days, d))
}

pub open spec fn moment_plus_fits(micros: int, d: mgp_duration) -> bool {
    &&& fits(micros + d.micros)
    &&& fits(d.days * DAY)
    &&& fits(micros + d.micros + d.days * DAY)
    &&& fits(d.months * 30)
    &&& fits(d.months * 30 * DAY)
    &&& fits(moment_plus(micros, d))
}

pub open spec fn moment_minus_fits(micros: int, d: mgp_duration) -> bool {
    &&& fits(micros - d.micros)
    &&& fits(d.days * DAY)
    &&& fits(micros - d.micros - d.days * DAY)
    &&& fits(d.months * 30)
    &&& fits(d.months * 30 * DAY)
    &&& fits(moment_minus(micros, d))
}

/// Adding a duration and taking it off again leads back.
pub proof fn taking_off_undoes_adding(n: int, d: mgp_duration)
    ensures
        date_minus(date_plus(n, d), d) == n,
        moment_minus(moment_plus(n, d), d) == n,
{
}

/// The date some time after a date.
pub fn mgp_date_add_duration(date: Option<&mgp_date>, dur: Option<&mgp_duration>, memory: Option<&mgp_memory>, result: Option<&mut Option<mgp_value>>) -> (e: MgpError)
    requires
        date is Some && dur is Some && result is Some ==> date_plus_fits(date->0.days as int, *dur->0),
    ensures
        e == given(date is None || dur is None || result is None),
        result matches Some(r) ==> opt_view(*final(r)) == match (date, dur) {
            (Some(x), Some(d)) => Some(Val::Date(date_plus(x.days as int, *d) as i64)),
            _ => opt_view(*r),
        },
{
    if result.is_none() {
        return MgpError::InvalidArgument;
    }
    match (date, dur) {
        (Some(x), Some(d)) => {
            let days: i64 = x.days + d.days + d.months * 30;
            mgp_value_make_date(days, memory, result)
        },
        _ => MgpError::InvalidArgument,
    }
}

/// The date some time before a date.
pub fn mgp_date_sub_duration(date: Option<&mgp_date>, dur: Option<&mgp_duration>, memory: Option<&mgp_memory>, result: Option<&mut Option<mgp_value>>) -> (e: MgpError)
    requires
        date is Some && dur is Some && result is Some ==> date_minus_fits(date->0.days as int, *dur->0),
    ensures
        e == given(date is None || dur is None || result is None),
        result matches Some(r) ==> opt_view(*final(r)) == match (date, dur) {
            (Some(x), Some(d)) => Some(Val::Date(date_minus(x.days as int, *d) as i64)),
            _ => opt_view(*r),
        },
{
    if result.is_none() {
        return MgpError::InvalidArgument;
    }
    match (date, dur) {
        (Some(x), Some(d)) => {
            let days: i64 = x.days - d.days - d.months * 30;
            mgp_value_make_date(days, memory, result)
        },
        _ => MgpError::InvalidArgument,
    }
}

/// The time of day some microseconds after a time of day.
pub fn mgp_local_time_add_duration(lt: Option<&mgp_local_time>, dur: Option<&mgp_duration>, memory: Option<&mgp_memory>, result: Option<&mut Option<mgp_value>>) -> (e: MgpError)
    requires
        lt is Some && dur is Some && result is Some ==> fits(lt->0.micros + dur->0.micros),
    ensures
        e == given(lt is None || dur is None || result is None),
        result matches Some(r) ==> opt_view(*final(r)) == match (lt, dur) {
            (Some(x), Some(d)) => Some(Val::LocalTime((x.micros + d.micros) as i64)),
            _ => opt_view(*r),
        },
{
    if result.is_none() {
        return MgpError::InvalidArgument;
    }
    match (lt, dur) {
        (Some(x), Some(d)) => {
            let micros: i64 = x.micros + d.micros;
            mgp_value_make_local_time(micros, memory, result)
        },
        _ => MgpError::InvalidArgument,
    }
}

/// The time of day some microseconds before a time of day.
pub fn mgp_local_time_sub_duration(lt: Option<&mgp_local_time>, dur: Option<&mgp_duration>, memory: Option<&mgp_memory>, result: Option<&mut Option<mgp_value>>) -> (e: MgpError)
    requires
        lt is Some && dur is Some && result is Some ==> fits(lt->0.micros - dur->0.micros),
    ensures
        e == given(lt is None || dur is None || result is None),
        result matches Some(r) ==> opt_view(*final(r)) == match (lt, dur) {
            (Some(x), Some(d)) => Some(Val::LocalTime((x.micros - d.micros) as i64)),
            _ => opt_view(*r),
        },
{
    if result.is_none() {
        return MgpError::InvalidArgument;
    }
    match (lt, dur) {
        (Some(x), Some(d)) => {
            let micros: i64 = x.micros - d.micros;
            mgp_value_make_local_time(micros, memory, result)
        },
        _ => MgpError::InvalidArgument,
    }
}

/// The moment some time after a moment.
pub fn mgp_local_date_time_add_duration(dt: Option<&mgp_local_date_time>, dur: Option<&mgp_duration>, memory: Option<&mgp_memory>, result: Option<&mut Option<mgp_value>>) -> (e: MgpError)
    requires
        dt is Some && dur is Some && result is Some ==> moment_plus_fits(dt->0.micros as int, *dur->0),
    ensures
        e == given(dt is None || dur is None || result is None),
        result matches Some(r) ==> opt_view(*final(r)) == match (dt, dur) {
            (Some(x), Some(d)) => Some(Val::LocalDateTime(moment_plus(x.micros as int, *d) as i64)),
            _ => opt_view(*r),
        },
{
    if result.is_none() {
        return MgpError::InvalidArgument;
    }
    match (dt, dur) {
        (Some(x), Some(d)) => {
            let micros: i64 = x.micros + d.micros + d.days * DAY + d.months * 30 * DAY;
            mgp_value_make_local_date_time(micros, memory, result)
        },
        _ => MgpError::InvalidArgument,
    }
}

/// The moment some time after a moment, in the same time zone.
pub fn mgp_zoned_date_time_add_duration(zdt: Option<&mgp_zoned_date_time>, dur: Option<&mgp_duration>, memory: Option<&mgp_memory>, result: Option<&mut Option<mgp_value>>) -> (e: MgpError)
    requires
        zdt is Some && dur is Some && result is Some ==> moment_plus_fits(zdt->0.micros as int, *dur->0),
    ensures
        e == given(zdt is None || dur is None || result is None),
        result matches Some(r) ==> opt_view(*final(r)) == match (zdt, dur) {
            (Some(x), Some(d)) => Some(Val::ZonedDateTime(ZonedTime { micros: moment_plus(x.micros as int, *d) as i64, offset: x.offset, tz: x.tz@ })),
            _ => opt_view(*r),
        },
{
    if result.is_none() {
        return MgpError::InvalidArgument;
    }
    match (zdt, dur) {
        (Some(x), Some(d)) => {
            let micros: i64 = x.micros + d.micros + d.days * DAY + d.months * 30 * DAY;
            mgp_value_make_zoned_date_time(micros, x.offset, Some(x.tz.as_str()), memory, result)
        },
        _ => MgpError::InvalidArgument,
    }
}

/// The moment some time before a moment.
pub fn mgp_local_date_time_sub_duration(dt: Option<&mgp_local_date_time>, dur: Option<&mgp_duration>, memory: Option<&mgp_memory>, result: Option<&mut Option<mgp_value>>) -> (e: MgpError)
    requires
        dt is Some && dur is Some && result is Some ==> moment_minus_fits(dt->0.micros as int, *dur->0),
    ensures
        e == given(dt is None || dur is None || result is None),
        result matches Some(r) ==> opt_view(*final(r)) == match (dt, dur) {
            (Some(x), Some(d)) => Some(Val::LocalDateTime(moment_minus(x.micros as int, *d) as i64)),
            _ => opt_view(*r),
        },
{
    if result.is_none() {
        return MgpError::InvalidArgument;
    }
    match (dt, dur) {
        (Some(x), Some(d)) => {
            let micros: i64 = x.micros - d.micros - d.days * DAY - d.months * 30 * DAY;
            mgp_value_make_local_date_time(micros, memory, result)
        },
        _ => MgpError::InvalidArgument,
    }
}

/// The moment some time before a moment, in the same time zone.
pub fn mgp_zoned_date_time_sub_duration(zdt: Option<&mgp_zoned_date_time>, dur: Option<&mgp_duration>, memory: Option<&mgp_memory>, result: Option<&mut Option<mgp_value>>) -> (e: MgpError)
    requires
        zdt is Some && dur is Some && result is Some ==> moment_minus_fits(zdt->0.micros as int, *dur->0),
    ensures
        e == given(zdt is None || dur is None || result is None),
        result matches Some(r) ==> opt_view(*final(r)) == match (zdt, dur) {
            (Some(x), Some(d)) => Some(Val::ZonedDateTime(ZonedTime { micros: moment_minus(x.micros as int, *d) as i64, offset: x.offset, tz: x.tz@ })),
            _ => opt_view(*r),
        },
{
    if result.is_none() {
        return MgpError::InvalidArgument;
    }
    match (zdt, dur) {
        (Some(x), Some(d)) => {
            let micros: i64 = x.micros - d.micros - d.days * DAY - d.months * 30 * DAY;
            mgp_value_make_zoned_date_time(micros, x.offset, Some(x.tz.as_str()), memory, result)
        },
        _ => MgpError::InvalidArgument,
    }
}

/// Makes a value of a date.
pub fn mgp_date_copy(src: Option<&mgp_date>, memory: Option<&mgp_memory>, result: Option<&mut Option<mgp_value>>) -> (e: MgpError)
    ensures
        e == given(src is None || result is None),
        result matches Some(r) ==> opt_view(*final(r)) == match src {
            Some(x) => Some(Val::Date(x.days)),
            None => opt_view(*r),
        },
{
    match src {
        Some(x) => mgp_value_make_date(x.days, memory, result),
        None => MgpError::InvalidArgument,
    }
}

/// Makes a value of a time of day.
pub fn mgp_local_time_copy(src: Option<&mgp_local_time>, memory: Option<&mgp_memory>, result: Option<&mut Option<mgp_value>>) -> (e: MgpError)
    ensures
        e == given(src is None || result is None),
        result matches Some(r) ==> opt_view(*final(r)) == match src {
            Some(x) => Some(Val::LocalTime(x.micros)),
            None => opt_view(*r),
        },
{
    match src {
        Some(x) => mgp_value_make_local_time(x.micros, memory, result),
        None => MgpError::InvalidArgument,
    }
}

/// Makes a value of a moment.
pub fn mgp_local_date_time_copy(src: Option<&mgp_local_date_time>, memory: Option<&mgp_memory>, result: Option<&mut Option<mgp_value>>) -> (e: MgpError)
    ensures
        e == given(src is None || result is None),
        result matches Some(r) ==> opt_view(*final(r)) == match src {
            Some(x) => Some(Val::LocalDateTime(x.micros)),
            None => opt_view(*r),
        },
{
    match src {
        Some(x) => mgp_value_make_local_date_time(x.micros, memory, result),
        None => MgpError::InvalidArgument,
    }
}

/// Makes a value of a duration.
pub fn mgp_duration_copy(src: Option<&mgp_duration>, memory: Option<&mgp_memory>, result: Option<&mut Option<mgp_value>>) -> (e: MgpError)
    ensures
        e == given(src is None || result is None),
        result matches Some(r) ==> opt_view(*final(r)) == match src {
            Some(x) => Some(Val::Duration(*x)),
            None => opt_view(*r),
        },
{
    match src {
        Some(x) => mgp_value_make_duration(x.months, x.days, x.micros, memory, result),
        None => MgpError::InvalidArgument,
    }
}

/// Makes a value of a moment in a time zone.
pub fn mgp_zoned_date_time_copy(src: Option<&mgp_zoned_date_time>, memory: Option<&mgp_memory>, result: Option<&mut Option<mgp_value>>) -> (e: MgpError)
    ensures
        e == given(src is None || result is None),
        result matches Some(r) ==> opt_view(*final(r)) == match src {
            Some(x) => Some(Val::ZonedDateTime(x@)),
            None => opt_view(*r),
        },
{
    match src {
        Some(x) => mgp_value_make_zoned_date_time(x.micros, x.offset, Some(x.tz.as_str()), memory, result),
        None => MgpError::InvalidArgument,
    }
}

/// Tells whether two dates are the same.
pub fn mgp_date_equal(a: Option<&mgp_date>, b: Option<&mgp_date>, result: Option<&mut i32>) -> (e: MgpError)
    ensures
        e == given(a is None || b is None || result is None),
        result matches Some(r) ==> *final(r) == match (a, b) {
            (Some(x), Some(y)) => flag(x.days == y.days),
            _ => *r,
        },
{
    match (a, b, result) {
        (Some(x), Some(y), Some(r)) => {
            *r = to_flag(x.days == y.days);
            MgpError::NoError
        },
        _ => MgpError::InvalidArgument,
    }
}

/// Tells whether two times of day are the same.
pub fn mgp_local_time_equal(a: Option<&mgp_local_time>, b: Option<&mgp_local_time>, result: Option<&mut i32>) -> (e: MgpError)
    ensures
        e == given(a is None || b is None || result is None),
        result matches Some(r) ==> *final(r) == match (a, b) {
            (Some(x), Some(y)) => flag(x.micros == y.micros),
            _ => *r,
        },
{
    match (a, b, result) {
        (Some(x), Some(y), Some(r)) => {
            *r = to_flag(x.micros == y.micros);
            MgpError::NoError
        },
        _ => MgpError::InvalidArgument,
    }
}

/// Tells whether two moments are the same.
pub fn mgp_local_date_time_equal(a: Option<&mgp_local_date_time>, b: Option<&mgp_local_date_time>, result: Option<&mut i32>) -> (e: MgpError)
    ensures
        e == given(a is None || b is None || result is None),
        result matches Some(r) ==> *final(r) == match (a, b) {
            (Some(x), Some(y)) => flag(x.micros == y.micros),
            _ => *r,
        },
{
    match (a, b, result) {
        (Some(x), Some(y), Some(r)) => {
            *r = to_flag(x.micros == y.micros);
            MgpError::NoError
        },
        _ => MgpError::InvalidArgument,
    }
}

/// Tells whether two durations have the same microseconds.
pub fn mgp_duration_equal(a: Option<&mgp_duration>, b: Option<&mgp_duration>, result: Option<&mut i32>) -> (e: MgpError)
    ensures
        e == given(a is None || b is None || result is None),
        result matches Some(r) ==> *final(r) == match (a, b) {
            (Some(x), Some(y)) => flag(x.micros == y.micros),
            _ => *r,
        },
{
    match (a, b, result) {
        (Some(x), Some(y), Some(r)) => {
            *r = to_flag(x.micros == y.micros);
            MgpError::NoError
        },
        _ => MgpError::InvalidArgument,
    }
}

/// Tells whether two moments have the same microseconds and offset.
pub fn mgp_zoned_date_time_equal(a: Option<&mgp_zoned_date_time>, b: Option<&mgp_zoned_date_time>, result: Option<&mut i32>) -> (e: MgpError)
    ensures
        e == given(a is None || b is None || result is None),
        result matches Some(r) ==> *final(r) == match (a, b) {
            (Some(x), Some(y)) => flag(x.micros == y.micros && x.offset == y.offset),
            _ => *r,
        },
{
    match (a, b, result) {
        (Some(x), Some(y), Some(r)) => {
            *r = to_flag(x.micros == y.micros && x.offset == y.offset);
            MgpError::NoError
        },
        _ => MgpError::InvalidArgument,
    }
}

/// The sum of two durations, part by part.
pub fn mgp_duration_add(
    a: Option<&mgp_duration>,
    b: Option<&mgp_duration>,
    memory: Option<&mgp_memory>,
    result: Option<&mut Option<mgp_value>>,
) -> (e: MgpError)
    requires
        a is Some && b is Some && result is Some ==> fits(a->0.months + b->0.months) && fits(a->0.days + b->0.days) && fits(
            a->0.micros + b->0.micros,
        ),
    ensures
        e == given(a is None || b is None || result is None),
        result matches Some(r) ==> opt_view(*final(r)) == match (a, b) {
            (Some(x), Some(y)) => Some(
                Val::Duration(
                    mgp_duration {
                        months: (x.months + y.months) as i64,
                        days: (x.days + y.days) as i64,
                        micros: (x.micros + y.micros) as i64,
                    },
                ),
            ),
            _ => opt_view(*r),
        },
{
    if result.is_none() {
        return MgpError::InvalidArgument;
    }
    match (a, b) {
        (Some(x), Some(y)) => mgp_value_make_duration(
            x.months + y.months,
            x.days + y.days,
            x.micros + y.micros,
            memory,
            result,
        ),
        _ => MgpError::InvalidArgument,
    }
}

/// The difference of two durations, part by part.
pub fn mgp_duration_sub(
    a: Option<&mgp_duration>,
    b: Option<&mgp_duration>,
    memory: Option<&mgp_memory>,
    result: Option<&mut Option<mgp_value>>,
) -> (e: MgpError)
    requires
        a is Some && b is Some && result is Some ==> fits(a->0.months - b->0.months) && fits(a->0.days - b->0.days) && fits(
            a->0.micros - b->0.micros,
        ),
    ensures
        e == given(a is None || b is None || result is None),
        result matches Some(r) ==> opt_view(*final(r)) == match (a, b) {
            (Some(x), Some(y)) => Some(
                Val::Duration(
                    mgp_duration {
                        months: (x.months - y.months) as i64,
                        days: (x.days - y.days) as i64,
                        micros: (x.micros - y.micros) as i64,
                    },
                ),
            ),
            _ => opt_view(*r),
        },
{
    if result.is_none() {
        return MgpError::InvalidArgument;
    }
    match (a, b) {
        (Some(x), Some(y)) => mgp_value_make_duration(
            x.months - y.months,
            x.days - y.days,
            x.micros - y.micros,
            memory,
            result,
        ),
        _ => MgpError::InvalidArgument,
    }
}

/// A duration, turned around.
pub fn mgp_duration_neg(dur: Option<&mgp_duration>, memory: Option<&mgp_memory>, result: Option<&mut Option<mgp_value>>) -> (e: MgpError)
    requires
        dur is Some && result is Some ==> dur->0.months > i64::MIN && dur->0.days > i64::MIN && dur->0.micros > i64::MIN,
    ensures
        e == given(dur is None || result is None),
        result matches Some(r) ==> opt_view(*final(r)) == match dur {
            Some(x) => Some(
                Val::Duration(
                    mgp_duration { months: (-x.months) as i64, days: (-x.days) as i64, micros: (-x.micros) as i64 },
                ),
            ),
            None => opt_view(*r),
        },
{
    if result.is_none() {
        return MgpError::InvalidArgument;
    }
    match dur {
        Some(x) => mgp_value_make_duration(-x.months, -x.days, -x.micros, memory, result),
        None => MgpError::InvalidArgument,
    }
}

/// The duration from the second to the first.
pub fn mgp_date_diff(a: Option<&mgp_date>, b: Option<&mgp_date>, result: Option<&mut Option<mgp_duration>>) -> (e: MgpError)
    requires
        a is Some && b is Some && result is Some ==> fits(a->0.days - b->0.days),
    ensures
        e == given(a is None || b is None || result is None),
        result matches Some(r) ==> *final(r) == match (a, b) {
            (Some(x), Some(y)) => Some(mgp_duration { months: 0, days: (x.days - y.days) as i64, micros: 0 }),
            _ => *r,
        },
{
    match (a, b, result) {
        (Some(x), Some(y), Some(r)) => {
            let days: i64 = x.days - y.days;
            *r = Some(mgp_duration { months: 0, days, micros: 0 });
            MgpError::NoError
        },
        _ => MgpError::InvalidArgument,
    }
}

/// The duration from the second to the first.
pub fn mgp_local_time_diff(a: Option<&mgp_local_time>, b: Option<&mgp_local_time>, result: Option<&mut Option<mgp_duration>>) -> (e: MgpError)
    requires
        a is Some && b is Some && result is Some ==> fits(a->0.micros - b->0.micros),
    ensures
        e == given(a is None || b is None || result is None),
        result matches Some(r) ==> *final(r) == match (a, b) {
            (Some(x), Some(y)) => Some(mgp_duration { months: 0, days: 0, micros: (x.micros - y.micros) as i64 }),
            _ => *r,
        },
{
    match (a, b, result) {
        (Some(x), Some(y), Some(r)) => {
            let micros: i64 = x.micros - y.micros;
            *r = Some(mgp_duration { months: 0, days: 0, micros });
            MgpError::NoError
        },
        _ => MgpError::InvalidArgument,
    }
}

/// The duration from the second to the first.
pub fn mgp_local_date_time_diff(a: Option<&mgp_local_date_time>, b: Option<&mgp_local_date_time>, result: Option<&mut Option<mgp_duration>>) -> (e: MgpError)
    requires
        a is Some && b is Some && result is Some ==> fits(a->0.micros - b->0.micros),
    ensures
        e == given(a is None || b is None || result is None),
        result matches Some(r) ==> *final(r) == match (a, b) {
            (Some(x), Some(y)) => Some(mgp_duration { months: 0, days: 0, micros: (x.micros - y.micros) as i64 }),
            _ => *r,
        },
{
    match (a, b, result) {
        (Some(x), Some(y), Some(r)) => {
            let micros: i64 = x.micros - y.micros;
            *r = Some(mgp_duration { months: 0, days: 0, micros });
            MgpError::NoError
        },
        _ => MgpError::InvalidArgument,
    }
}

/// The duration from the second to the first.
pub fn mgp_zoned_date_time_diff(a: Option<&mgp_zoned_date_time>, b: Option<&mgp_zoned_date_time>, result: Option<&mut Option<mgp_duration>>) -> (e: MgpError)
    requires
        a is Some && b is Some && result is Some ==> fits(a->0.micros - b->0.micros),
    ensures
        e == given(a is None || b is None || result is None),
        result matches Some(r) ==> *final(r) == match (a, b) {
            (Some(x), Some(y)) => Some(mgp_duration { months: 0, days: 0, micros: (x.micros - y.micros) as i64 }),
            _ => *r,
        },
{
    match (a, b, result) {
        (Some(x), Some(y), Some(r)) => {
            let micros: i64 = x.micros - y.micros;
            *r = Some(mgp_duration { months: 0, days: 0, micros });
            MgpError::NoError
        },
        _ => MgpError::InvalidArgument,
    }
}

/// Hands out a date that was found, or an error and nothing.
pub fn hand_out_date(days: Option<i64>, memory: Option<&mgp_memory>, result: Option<&mut Option<mgp_value>>) -> (e: MgpError)
    ensures
        e == given(days is None || result is None),
        result matches Some(r) ==> opt_view(*final(r)) == match days {
            Some(d) => Some(Val::Date(d)),
            None => None,
        },
{
    match days {
        Some(d) => mgp_value_make_date(d, memory, result),
        None => hand_out_nothing(result),
    }
}

/// Hands out nothing, as an error.
fn hand_out_nothing(result: Option<&mut Option<mgp_value>>) -> (e: MgpError)
    ensures
        e is InvalidArgument,
        result matches Some(r) ==> *final(r) is None,
{
    match result {
        Some(r) => {
            *r = None;
        },
        None => {},
    }
    MgpError::InvalidArgument
}

/// Hands out a time of day that was found, or an error and nothing.
pub fn hand_out_time(time: Option<TimeParts>, memory: Option<&mgp_memory>, result: Option<&mut Option<mgp_value>>) -> (e: MgpError)
    requires
        time matches Some(t) ==> t.hour < 24 && t.minute < 60 && t.second < 60 && t.nanosecond < 2_000_000_000,
    ensures
        e == given(time is None || result is None),
        result matches Some(r) ==> opt_view(*final(r)) == match time {
            Some(t) => Some(Val::LocalTime(micros_of_time(t) as i64)),
            None => None,
        },
{
    match time {
        Some(t) => {
            let us: i64 = t.hour as i64 * 3_600_000_000 + t.minute as i64 * 60_000_000 + t.second as i64 * 1_000_000
                + t.nanosecond as i64 / 1000;
            mgp_value_make_local_time(us, memory, result)
        },
        None => hand_out_nothing(result),
    }
}

/// Hands out a moment that was found, or an error and nothing.
pub fn hand_out_moment(micros: Option<i64>, memory: Option<&mgp_memory>, result: Option<&mut Option<mgp_value>>) -> (e: MgpError)
    ensures
        e == given(micros is None || result is None),
        result matches Some(r) ==> opt_view(*final(r)) == match micros {
            Some(us) => Some(Val::LocalDateTime(us)),
            None => None,
        },
{
    match micros {
        Some(us) => mgp_value_make_local_date_time(us, memory, result),
        None => hand_out_nothing(result),
    }
}

/// Hands out a moment in a time zone that was found, or an error and nothing.
pub fn hand_out_zoned_moment(
    moment: Option<(i64, i16)>,
    tz: &str,
    memory: Option<&mgp_memory>,
    result: Option<&mut Option<mgp_value>>,
) -> (e: MgpError)
    ensures
        e == given(moment is None || result is None),
        result matches Some(r) ==> opt_view(*final(r)) == match moment {
            Some(m) => Some(Val::ZonedDateTime(ZonedTime { micros: m.0, offset: m.1, tz: tz@ })),
            None => None,
        },
{
    match moment {
        Some(m) => mgp_value_make_zoned_date_time(m.0, m.1, Some(tz), memory, result),
        None => hand_out_nothing(result),
    }
}

/// The parts of a time of day that is no leap second lead back to it.
pub proof fn parts_of_a_time_lead_back(hour: u32, minute: u32, second: u32, micro: u32)
    requires
        is_time_with_micros(hour, minute, second, micro),
        micro < 1_000_000,
    ensures
        time_parts(micros_of_time(time_with_micros(hour, minute, second, micro))) == (
            hour as int,
            minute as int,
            second as int,
            micro as int / 1000,
            micro as int % 1000,
        ),
{
}

/// The parts of a moment that is no leap second lead back to it: first the days, then the time of
/// day.
pub proof fn parts_of_a_moment_lead_back(y: int, m: int, d: int, hour: u32, minute: u32, second: u32, micro: u32)
    requires
        is_date(y, m, d),
        is_time_with_micros(hour, minute, second, micro),
        micro < 1_000_000,
    ensures
        ({
            let moment = micros_of_moment(y, m, d, time_with_micros(hour, minute, second, micro));
            &&& date_of(whole_days(moment)) == (y, m, d)
            &&& rest_of_day(moment) == micros_of_time(time_with_micros(hour, minute, second, micro))
        }),
{
    parts_of_a_date_lead_back(y, m, d);
}

/// Makes a date of its parts. Parts that are too large lose their upper bits.
pub fn mgp_date_from_parameters(
    year: i64,
    month: i64,
    day: i64,
    memory: Option<&mgp_memory>,
    result: Option<&mut Option<mgp_value>>,
) -> (e: MgpError)
    ensures
        e == given(result is None || !is_date(year as i32 as int, month as u32 as int, day as u32 as int)),
        result matches Some(r) ==> opt_view(*final(r)) == if is_date(year as i32 as int, month as u32 as int, day as u32 as int) {
            Some(Val::Date(day_number(year as i32 as int, month as u32 as int, day as u32 as int) as i64))
        } else {
            None
        },
{
    let days = days_of_date(#[verifier::truncate] (year as i32), #[verifier::truncate] (month as u32), #[verifier::truncate] (day as u32));
    hand_out_date(days, memory, result)
}

/// Makes the date that a text stands for.
pub fn mgp_date_from_string(s: &str, memory: Option<&mgp_memory>, result: Option<&mut Option<mgp_value>>) -> (e: MgpError)
    ensures
        e == given(result is None || parsed_date(s@) is None),
        result matches Some(r) ==> opt_view(*final(r)) == match parsed_date(s@) {
            Some(d) => Some(Val::Date(d)),
            None => None,
        },
{
    hand_out_date(parse_date(s), memory, result)
}

/// Makes a time of day of its parts. Parts that are too large lose their upper bits.
pub fn mgp_local_time_from_parameters(
    hour: i64,
    minute: i64,
    second: i64,
    microsecond: i64,
    memory: Option<&mgp_memory>,
    result: Option<&mut Option<mgp_value>>,
) -> (e: MgpError)
    ensures
        e == given(
            result is None || !is_time_with_micros(hour as u32, minute as u32, second as u32, microsecond as u32),
        ),
        result matches Some(r) ==> opt_view(*final(r)) == if is_time_with_micros(
            hour as u32,
            minute as u32,
            second as u32,
            microsecond as u32,
        ) {
            Some(
                Val::LocalTime(
                    micros_of_time(time_with_micros(hour as u32, minute as u32, second as u32, microsecond as u32)) as i64,
                ),
            )
        } else {
            None
        },
{
    let time = time_of_parts(
        #[verifier::truncate] (hour as u32),
        #[verifier::truncate] (minute as u32),
        #[verifier::truncate] (second as u32),
        #[verifier::truncate] (microsecond as u32),
    );
    hand_out_time(time, memory, result)
}

/// Makes the time of day that a text stands for.
pub fn mgp_local_time_from_string(s: &str, memory: Option<&mgp_memory>, result: Option<&mut Option<mgp_value>>) -> (e: MgpError)
    ensures
        e == given(result is None || parsed_time(s@, "%H:%M:%S%.f"@) is None),
        result matches Some(r) ==> opt_view(*final(r)) == match parsed_time(s@, "%H:%M:%S%.f"@) {
            Some(t) => Some(Val::LocalTime(micros_of_time(t) as i64)),
            None => None,
        },
{
    hand_out_time(parse_time(s, "%H:%M:%S%.f"), memory, result)
}

/// Whether the parts of a moment, without their upper bits, are those of one that exists.
pub open spec fn is_moment_of(year: i64, month: i64, day: i64, hour: i64, minute: i64, second: i64, microsecond: i64) -> bool {
    is_moment(year as i32, month as u32, day as u32, hour as u32, minute as u32, second as u32, microsecond as u32)
}

/// The microseconds since the epoch of a moment that is given by its parts.
pub open spec fn moment_of(year: i64, month: i64, day: i64, hour: i64, minute: i64, second: i64, microsecond: i64) -> i64 {
    micros_of_moment(
        year as i32 as int,
        month as u32 as int,
        day as u32 as int,
        time_with_micros(hour as u32, minute as u32, second as u32, microsecond as u32),
    ) as i64
}

fn find_moment(year: i64, month: i64, day: i64, hour: i64, minute: i64, second: i64, microsecond: i64) -> (r: Option<i64>)
    ensures
        r is Some <==> is_moment_of(year, month, day, hour, minute, second, microsecond),
        r matches Some(us) ==> us == moment_of(year, month, day, hour, minute, second, microsecond),
{
    micros_of_parts(
        #[verifier::truncate] (year as i32),
        #[verifier::truncate] (month as u32),
        #[verifier::truncate] (day as u32),
        #[verifier::truncate] (hour as u32),
        #[verifier::truncate] (minute as u32),
        #[verifier::truncate] (second as u32),
        #[verifier::truncate] (microsecond as u32),
    )
}

/// Makes a moment of its parts. Parts that are too large lose their upper bits.
pub fn mgp_local_date_time_from_parameters(
    year: i64,
    month: i64,
    day: i64,
    hour: i64,
    minute: i64,
    second: i64,
    microsecond: i64,
    memory: Option<&mgp_memory>,
    result: Option<&mut Option<mgp_value>>,
) -> (e: MgpError)
    ensures
        e == given(result is None || !is_moment_of(year, month, day, hour, minute, second, microsecond)),
        result matches Some(r) ==> opt_view(*final(r)) == if is_moment_of(
            year,
            month,
            day,
            hour,
            minute,
            second,
            microsecond,
        ) {
            Some(Val::LocalDateTime(moment_of(year, month, day, hour, minute, second, microsecond)))
        } else {
            None
        },
{
    hand_out_moment(find_moment(year, month, day, hour, minute, second, microsecond), memory, result)
}

/// Makes the moment that a text stands for.
pub fn mgp_local_date_time_from_string(s: &str, memory: Option<&mgp_memory>, result: Option<&mut Option<mgp_value>>) -> (e: MgpError)
    ensures
        e == given(result is None || parsed_moment(s@, "%Y-%m-%dT%H:%M:%S%.f"@) is None),
        result matches Some(r) ==> opt_view(*final(r)) == match parsed_moment(s@, "%Y-%m-%dT%H:%M:%S%.f"@) {
            Some(us) => Some(Val::LocalDateTime(us)),
            None => None,
        },
{
    hand_out_moment(parse_moment(s, "%Y-%m-%dT%H:%M:%S%.f"), memory, result)
}

/// Makes a moment in a time zone of its parts. Parts that are too large lose their upper bits.
pub fn mgp_zoned_date_time_from_parameters(
    year: i64,
    month: i64,
    day: i64,
    hour: i64,
    minute: i64,
    second: i64,
    microsecond: i64,
    offset: i64,
    tz: Option<&str>,
    memory: Option<&mgp_memory>,
    result: Option<&mut Option<mgp_value>>,
) -> (e: MgpError)
    ensures
        e == given(result is None || !is_moment_of(year, month, day, hour, minute, second, microsecond)),
        result matches Some(r) ==> opt_view(*final(r)) == if is_moment_of(
            year,
            month,
            day,
            hour,
            minute,
            second,
            microsecond,
        ) {
            Some(
                Val::ZonedDateTime(
                    ZonedTime {
                        micros: moment_of(year, month, day, hour, minute, second, microsecond),
                        offset: offset as i16,
                        tz: match tz {
                            Some(name) => name@,
                            None => ""@,
                        },
                    },
                ),
            )
        } else {
            None
        },
{
    let name = match tz {
        Some(name) => name,
        None => "",
    };
    let moment = match find_moment(year, month, day, hour, minute, second, microsecond) {
        Some(us) => Some((us, #[verifier::truncate] (offset as i16))),
        None => None,
    };
    hand_out_zoned_moment(moment, name, memory, result)
}

/// Makes the moment that a text stands for, with its offset but without the name of a time zone. An
/// offset that is too large loses its upper bits.
pub fn mgp_zoned_date_time_from_string(s: &str, memory: Option<&mgp_memory>, result: Option<&mut Option<mgp_value>>) -> (e: MgpError)
    ensures
        e == given(result is None || parsed_zoned_moment(s@) is None),
        result matches Some(r) ==> opt_view(*final(r)) == match parsed_zoned_moment(s@) {
            Some(m) => Some(Val::ZonedDateTime(ZonedTime { micros: m.0, offset: m.1 as i16, tz: ""@ })),
            None => None,
        },
{
    let moment = match parse_zoned_moment(s) {
        Some(m) => Some((m.0, #[verifier::truncate] (m.1 as i16))),
        None => None,
    };
    hand_out_zoned_moment(moment, "", memory, result)
}

/// Makes the duration that a text stands for.
pub fn mgp_duration_from_string<F: Fn(&str) -> Option<i64>>(
    s: &str,
    fraction: &F,
    memory: Option<&mgp_memory>,
    result: Option<&mut Option<mgp_value>>,
) -> (e: MgpError)
    requires
        reads_fractions(*fraction),
        duration_fits(*fraction, s@),
    ensures
        e == given(result is None || read_duration(*fraction, s@) is None),
        result matches Some(r) ==> opt_view(*final(r)) == match read_duration(*fraction, s@) {
            Some(d) => Some(
                Val::Duration(mgp_duration { months: d.0 as i64, days: d.1 as i64, micros: d.2 as i64 }),
            ),
            None => None,
        },
{
    match parse_duration_str(s, fraction) {
        Some(d) => mgp_value_make_duration(d.0, d.1, d.2, memory, result),
        None => hand_out_nothing(result),
    }
}

} // verus!
