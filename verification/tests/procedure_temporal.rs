//! Dates, times, moments, durations, points and members of enumerations.
use graphkit::procedure::calendar::{FIRST_DAY, LAST_DAY};
use graphkit::procedure::codes::MgpError;
use graphkit::procedure::duration::{keeps_within, parse_duration_str, parse_integer};
use graphkit::procedure::points::{
    mgp_enum_copy, mgp_enum_equal, mgp_enum_get_type_name, mgp_enum_get_value_name, mgp_enum_make, mgp_point_2d_copy, mgp_point_2d_equal,
    mgp_point_2d_get_srid, mgp_point_2d_get_x, mgp_point_2d_get_y, mgp_point_2d_make, mgp_point_3d_copy, mgp_point_3d_equal, mgp_point_3d_get_srid,
    mgp_point_3d_get_x, mgp_point_3d_get_y, mgp_point_3d_get_z, mgp_point_3d_make,
};
use graphkit::procedure::temporal::{
    hand_out_date, hand_out_moment, hand_out_time, hand_out_zoned_moment, ldt_date_parts, mgp_date_add_duration, mgp_date_copy, mgp_date_diff, mgp_date_equal,
    mgp_date_from_parameters, mgp_date_from_string, mgp_date_get_day, mgp_date_get_month, mgp_date_get_year, mgp_date_now, mgp_date_sub_duration,
    mgp_date_timestamp, mgp_duration_add, mgp_duration_copy, mgp_duration_equal, mgp_duration_from_microseconds, mgp_duration_from_parameters,
    mgp_duration_from_string, mgp_duration_get_microseconds, mgp_duration_neg, mgp_duration_sub, mgp_local_date_time_add_duration,
    mgp_local_date_time_copy, mgp_local_date_time_diff, mgp_local_date_time_equal, mgp_local_date_time_from_parameters, mgp_local_date_time_from_string,
    mgp_local_date_time_get_day, mgp_local_date_time_get_hour, mgp_local_date_time_get_microsecond, mgp_local_date_time_get_millisecond,
    mgp_local_date_time_get_minute, mgp_local_date_time_get_month, mgp_local_date_time_get_second, mgp_local_date_time_get_year,
    mgp_local_date_time_now, mgp_local_date_time_sub_duration, mgp_local_date_time_timestamp, mgp_local_time_add_duration, mgp_local_time_copy,
    mgp_local_time_diff, mgp_local_time_equal, mgp_local_time_from_parameters, mgp_local_time_from_string, mgp_local_time_get_hour,
    mgp_local_time_get_microsecond, mgp_local_time_get_millisecond, mgp_local_time_get_minute, mgp_local_time_get_second, mgp_local_time_now,
    mgp_local_time_sub_duration, mgp_local_time_timestamp, mgp_zoned_date_time_add_duration, mgp_zoned_date_time_copy, mgp_zoned_date_time_diff,
    mgp_zoned_date_time_equal, mgp_zoned_date_time_from_parameters, mgp_zoned_date_time_from_string, mgp_zoned_date_time_get_day,
    mgp_zoned_date_time_get_hour, mgp_zoned_date_time_get_minute, mgp_zoned_date_time_get_month, mgp_zoned_date_time_get_offset,
    mgp_zoned_date_time_get_second, mgp_zoned_date_time_get_timezone, mgp_zoned_date_time_get_year, mgp_zoned_date_time_now,
    mgp_zoned_date_time_sub_duration, mgp_zoned_date_time_timestamp, time_parts_from_micros,
};
use graphkit::procedure::value::{
    mgp_date, mgp_duration, mgp_enum, mgp_local_date_time, mgp_local_time, mgp_point_2d, mgp_point_3d, mgp_value, mgp_value_get_date,
    mgp_value_get_duration, mgp_value_get_local_date_time, mgp_value_get_local_time, mgp_value_get_point_2d, mgp_value_get_point_3d,
    mgp_value_get_zoned_date_time, mgp_zoned_date_time,
};

const DAY: i64 = 86_400_000_000;

/// The days from the epoch to a date, told by the calendar.
fn days_to(year: i32, month: u32, day: u32) -> i64 {
    let epoch = chrono::NaiveDate::from_ymd_opt(1970, 1, 1).unwrap();
    let target = chrono::NaiveDate::from_ymd_opt(year, month, day).unwrap();
    (target - epoch).num_days()
}

fn date_in(v: &Option<mgp_value>) -> i64 {
    let mut n = 0i64;
    assert_eq!(mgp_value_get_date(v.as_ref(), Some(&mut n)), MgpError::NoError);
    n
}

fn time_in(v: &Option<mgp_value>) -> i64 {
    let mut n = 0i64;
    assert_eq!(mgp_value_get_local_time(v.as_ref(), Some(&mut n)), MgpError::NoError);
    n
}

fn moment_in(v: &Option<mgp_value>) -> i64 {
    let mut n = 0i64;
    assert_eq!(mgp_value_get_local_date_time(v.as_ref(), Some(&mut n)), MgpError::NoError);
    n
}

fn zoned_in(v: &Option<mgp_value>) -> (i64, i16, String) {
    let mut z: Option<mgp_zoned_date_time> = None;
    assert_eq!(mgp_value_get_zoned_date_time(v.as_ref(), Some(&mut z)), MgpError::NoError);
    let z = z.unwrap();
    (z.micros, z.offset, z.tz)
}

fn duration_in(v: &Option<mgp_value>) -> mgp_duration {
    let mut d: Option<mgp_duration> = None;
    assert_eq!(mgp_value_get_duration(v.as_ref(), Some(&mut d)), MgpError::NoError);
    d.unwrap()
}

fn duration(months: i64, days: i64, micros: i64) -> mgp_duration {
    mgp_duration { months, days, micros }
}

fn fraction(s: &str) -> Option<i64> {
    s.parse::<f64>().ok().map(|f| (f * 1_000_000.0) as i64)
}

#[test]
fn date_get_fields_correct() {
    let days = days_to(2024, 6, 15);
    let date = mgp_date { days };

    let mut year: i64 = 0;
    let mut month: i64 = 0;
    let mut day: i64 = 0;
    let mut ts: i64 = 0;

    assert_eq!(mgp_date_get_year(Some(&date), Some(&mut year)), MgpError::NoError);
    assert_eq!(mgp_date_get_month(Some(&date), Some(&mut month)), MgpError::NoError);
    assert_eq!(mgp_date_get_day(Some(&date), Some(&mut day)), MgpError::NoError);
    assert_eq!(mgp_date_timestamp(Some(&date), Some(&mut ts)), MgpError::NoError);

    assert_eq!(year, 2024);
    assert_eq!(month, 6);
    assert_eq!(day, 15);
    assert_eq!(ts, days * 86400);
}

#[test]
fn local_time_get_fields_correct() {
    // 14:30:45.123456 = 14*3600000000 + 30*60000000 + 45*1000000 + 123456
    let micros: i64 = 14 * 3_600_000_000 + 30 * 60_000_000 + 45 * 1_000_000 + 123_456;
    let time = mgp_local_time { micros };

    let mut hour: i64 = 0;
    let mut minute: i64 = 0;
    let mut second: i64 = 0;
    let mut millisecond: i64 = 0;
    let mut microsecond: i64 = 0;
    let mut ts: i64 = 0;

    assert_eq!(mgp_local_time_get_hour(Some(&time), Some(&mut hour)), MgpError::NoError);
    assert_eq!(mgp_local_time_get_minute(Some(&time), Some(&mut minute)), MgpError::NoError);
    assert_eq!(mgp_local_time_get_second(Some(&time), Some(&mut second)), MgpError::NoError);
    assert_eq!(mgp_local_time_get_millisecond(Some(&time), Some(&mut millisecond)), MgpError::NoError);
    assert_eq!(mgp_local_time_get_microsecond(Some(&time), Some(&mut microsecond)), MgpError::NoError);
    assert_eq!(mgp_local_time_timestamp(Some(&time), Some(&mut ts)), MgpError::NoError);

    assert_eq!(hour, 14);
    assert_eq!(minute, 30);
    assert_eq!(second, 45);
    assert_eq!(millisecond, 123);
    assert_eq!(microsecond, 456);
    assert_eq!(ts, micros);
}

#[test]
fn local_date_time_get_fields_correct() {
    // 2024-06-15 14:30:45.123456
    let days = days_to(2024, 6, 15);
    let time_micros: i64 = 14 * 3_600_000_000 + 30 * 60_000_000 + 45 * 1_000_000 + 123_456;
    let micros = days * 86_400_000_000 + time_micros;
    let dt = mgp_local_date_time { micros };

    let mut year: i64 = 0;
    let mut month: i64 = 0;
    let mut day: i64 = 0;
    let mut hour: i64 = 0;
    let mut minute: i64 = 0;
    let mut second: i64 = 0;
    let mut millisecond: i64 = 0;
    let mut microsecond: i64 = 0;
    let mut ts: i64 = 0;

    assert_eq!(mgp_local_date_time_get_year(Some(&dt), Some(&mut year)), MgpError::NoError);
    assert_eq!(mgp_local_date_time_get_month(Some(&dt), Some(&mut month)), MgpError::NoError);
    assert_eq!(mgp_local_date_time_get_day(Some(&dt), Some(&mut day)), MgpError::NoError);
    assert_eq!(mgp_local_date_time_get_hour(Some(&dt), Some(&mut hour)), MgpError::NoError);
    assert_eq!(mgp_local_date_time_get_minute(Some(&dt), Some(&mut minute)), MgpError::NoError);
    assert_eq!(mgp_local_date_time_get_second(Some(&dt), Some(&mut second)), MgpError::NoError);
    assert_eq!(mgp_local_date_time_get_millisecond(Some(&dt), Some(&mut millisecond)), MgpError::NoError);
    assert_eq!(mgp_local_date_time_get_microsecond(Some(&dt), Some(&mut microsecond)), MgpError::NoError);
    assert_eq!(mgp_local_date_time_timestamp(Some(&dt), Some(&mut ts)), MgpError::NoError);

    assert_eq!(year, 2024);
    assert_eq!(month, 6);
    assert_eq!(day, 15);
    assert_eq!(hour, 14);
    assert_eq!(minute, 30);
    assert_eq!(second, 45);
    assert_eq!(millisecond, 123);
    assert_eq!(microsecond, 456);
    assert_eq!(ts, micros);
}

#[test]
fn zoned_date_time_get_fields_correct() {
    let days = days_to(2024, 6, 15);
    let time_micros: i64 = 14 * 3_600_000_000 + 30 * 60_000_000 + 45 * 1_000_000;
    let micros = days * 86_400_000_000 + time_micros;
    let zdt = mgp_zoned_date_time { micros, offset: 3600, tz: "Europe/Berlin".to_string() };

    let mut year: i64 = 0;
    let mut month: i64 = 0;
    let mut day: i64 = 0;
    let mut hour: i64 = 0;
    let mut offset: i64 = 0;
    let mut tz: Option<String> = None;

    assert_eq!(mgp_zoned_date_time_get_year(Some(&zdt), Some(&mut year)), MgpError::NoError);
    assert_eq!(mgp_zoned_date_time_get_month(Some(&zdt), Some(&mut month)), MgpError::NoError);
    assert_eq!(mgp_zoned_date_time_get_day(Some(&zdt), Some(&mut day)), MgpError::NoError);
    assert_eq!(mgp_zoned_date_time_get_hour(Some(&zdt), Some(&mut hour)), MgpError::NoError);
    assert_eq!(mgp_zoned_date_time_get_offset(Some(&zdt), Some(&mut offset)), MgpError::NoError);
    assert_eq!(mgp_zoned_date_time_get_timezone(Some(&zdt), Some(&mut tz)), MgpError::NoError);

    assert_eq!(year, 2024);
    assert_eq!(month, 6);
    assert_eq!(day, 15);
    assert_eq!(hour, 14);
    assert_eq!(offset, 3600);
    assert_eq!(tz.unwrap(), "Europe/Berlin");

    let mut part: i64 = 0;
    mgp_zoned_date_time_get_minute(Some(&zdt), Some(&mut part));
    assert_eq!(part, 30);
    mgp_zoned_date_time_get_second(Some(&zdt), Some(&mut part));
    assert_eq!(part, 45);
    mgp_zoned_date_time_timestamp(Some(&zdt), Some(&mut part));
    assert_eq!(part, micros);
}

#[test]
fn date_epoch_zero_fields() {
    let date = mgp_date { days: 0 };
    let mut year: i64 = 0;
    let mut month: i64 = 0;
    let mut day: i64 = 0;
    assert_eq!(mgp_date_get_year(Some(&date), Some(&mut year)), MgpError::NoError);
    assert_eq!(mgp_date_get_month(Some(&date), Some(&mut month)), MgpError::NoError);
    assert_eq!(mgp_date_get_day(Some(&date), Some(&mut day)), MgpError::NoError);
    assert_eq!(year, 1970);
    assert_eq!(month, 1);
    assert_eq!(day, 1);
}

#[test]
fn local_time_midnight_fields() {
    let time = mgp_local_time { micros: 0 };
    let mut hour: i64 = 99;
    let mut minute: i64 = 99;
    let mut second: i64 = 99;
    assert_eq!(mgp_local_time_get_hour(Some(&time), Some(&mut hour)), MgpError::NoError);
    assert_eq!(mgp_local_time_get_minute(Some(&time), Some(&mut minute)), MgpError::NoError);
    assert_eq!(mgp_local_time_get_second(Some(&time), Some(&mut second)), MgpError::NoError);
    assert_eq!(hour, 0);
    assert_eq!(minute, 0);
    assert_eq!(second, 0);
}

#[test]
fn dates_reach_as_far_as_the_calendar() {
    let mut year: i64 = 0;
    let mut month: i64 = 0;
    let mut day: i64 = 0;
    let first = mgp_date { days: FIRST_DAY };
    mgp_date_get_year(Some(&first), Some(&mut year));
    mgp_date_get_month(Some(&first), Some(&mut month));
    mgp_date_get_day(Some(&first), Some(&mut day));
    let min = chrono::NaiveDate::MIN;
    assert_eq!(format!("{:?}", min), format!("{:07}-{:02}-{:02}", year, month, day));
    let last = mgp_date { days: LAST_DAY };
    mgp_date_get_year(Some(&last), Some(&mut year));
    mgp_date_get_month(Some(&last), Some(&mut month));
    mgp_date_get_day(Some(&last), Some(&mut day));
    let max = chrono::NaiveDate::MAX;
    assert_eq!(format!("{:?}", max), format!("+{}-{:02}-{:02}", year, month, day));
}

#[test]
fn dates_lead_to_their_parts_and_back() {
    for &(y, m, d) in &[(2000i64, 2i64, 29i64), (1900, 3, 1), (1969, 12, 31), (-1, 1, 1), (0, 2, 29), (2023, 12, 31)] {
        let mut v: Option<mgp_value> = None;
        assert_eq!(mgp_date_from_parameters(y, m, d, None, Some(&mut v)), MgpError::NoError);
        let date = mgp_date { days: date_in(&v) };
        assert_eq!(date.days, days_to(y as i32, m as u32, d as u32));
        let (mut a, mut b, mut c) = (0i64, 0i64, 0i64);
        mgp_date_get_year(Some(&date), Some(&mut a));
        mgp_date_get_month(Some(&date), Some(&mut b));
        mgp_date_get_day(Some(&date), Some(&mut c));
        assert_eq!((a, b, c), (y, m, d));
    }
    let mut v: Option<mgp_value> = None;
    for &(y, m, d) in &[(2023i64, 2i64, 29i64), (1900, 2, 29), (2023, 13, 1), (2023, 0, 1), (2023, 4, 31), (300_000, 1, 1)] {
        v = Some(mgp_value { inner: graphkit::procedure::value::ValueInner::Null });
        assert_eq!(mgp_date_from_parameters(y, m, d, None, Some(&mut v)), MgpError::InvalidArgument);
        assert!(v.is_none());
    }
    // Parts that are too large lose their upper bits
    assert_eq!(mgp_date_from_parameters(2000 + (1 << 32), 1, 2, None, Some(&mut v)), MgpError::NoError);
    assert_eq!(date_in(&v), days_to(2000, 1, 2));
}

#[test]
fn texts_are_read_as_dates_times_and_moments() {
    let mut v: Option<mgp_value> = None;
    assert_eq!(mgp_date_from_string("2024-06-15", None, Some(&mut v)), MgpError::NoError);
    assert_eq!(date_in(&v), days_to(2024, 6, 15));
    assert_eq!(mgp_date_from_string("2024-06-31", None, Some(&mut v)), MgpError::InvalidArgument);
    assert!(v.is_none());
    assert_eq!(mgp_local_time_from_string("14:30:45.123456", None, Some(&mut v)), MgpError::NoError);
    assert_eq!(time_in(&v), 52_245_123_456);
    assert_eq!(mgp_local_time_from_string("25:00:00", None, Some(&mut v)), MgpError::InvalidArgument);
    assert!(v.is_none());
    assert_eq!(mgp_local_date_time_from_string("2024-06-15T14:30:45.5", None, Some(&mut v)), MgpError::NoError);
    assert_eq!(moment_in(&v), days_to(2024, 6, 15) * DAY + 52_245_500_000);
    assert_eq!(mgp_local_date_time_from_string("yesterday", None, Some(&mut v)), MgpError::InvalidArgument);
    assert_eq!(mgp_zoned_date_time_from_string("2024-06-15T14:30:45+02:00", None, Some(&mut v)), MgpError::NoError);
    assert_eq!(zoned_in(&v), (days_to(2024, 6, 15) * DAY + 45_045_000_000, 7200, "".to_string()));
    assert_eq!(mgp_zoned_date_time_from_string("2024-06-15", None, Some(&mut v)), MgpError::InvalidArgument);
    assert_eq!(mgp_date_from_string("2024-06-15", None, None), MgpError::InvalidArgument);
}

#[test]
fn what_was_read_is_handed_out() {
    let mut v: Option<mgp_value> = None;
    assert_eq!(hand_out_date(Some(9), None, Some(&mut v)), MgpError::NoError);
    assert_eq!(date_in(&v), 9);
    assert_eq!(hand_out_date(None, None, Some(&mut v)), MgpError::InvalidArgument);
    assert!(v.is_none());
    assert_eq!(hand_out_moment(Some(-5), None, Some(&mut v)), MgpError::NoError);
    assert_eq!(moment_in(&v), -5);
    assert_eq!(hand_out_zoned_moment(Some((7, -60)), "X", None, Some(&mut v)), MgpError::NoError);
    assert_eq!(zoned_in(&v), (7, -60, "X".to_string()));
    assert_eq!(hand_out_time(None, None, Some(&mut v)), MgpError::InvalidArgument);
    assert!(v.is_none());
}

#[test]
fn times_and_moments_are_made_of_their_parts() {
    let mut v: Option<mgp_value> = None;
    assert_eq!(mgp_local_time_from_parameters(23, 59, 59, 999_999, None, Some(&mut v)), MgpError::NoError);
    assert_eq!(time_in(&v), DAY - 1);
    assert_eq!(mgp_local_time_from_parameters(24, 0, 0, 0, None, Some(&mut v)), MgpError::InvalidArgument);
    assert!(v.is_none());
    assert_eq!(mgp_local_date_time_from_parameters(1970, 1, 2, 0, 0, 1, 5, None, Some(&mut v)), MgpError::NoError);
    assert_eq!(moment_in(&v), DAY + 1_000_005);
    assert_eq!(mgp_local_date_time_from_parameters(1969, 12, 31, 23, 59, 59, 0, None, Some(&mut v)), MgpError::NoError);
    assert_eq!(moment_in(&v), -1_000_000);
    assert_eq!(mgp_local_date_time_from_parameters(1970, 1, 2, 0, 60, 1, 5, None, Some(&mut v)), MgpError::InvalidArgument);
    assert_eq!(
        mgp_zoned_date_time_from_parameters(1970, 1, 1, 1, 0, 0, 0, 3600, Some("CET"), None, Some(&mut v)),
        MgpError::NoError
    );
    assert_eq!(zoned_in(&v), (3_600_000_000, 3600, "CET".to_string()));
    mgp_zoned_date_time_from_parameters(1970, 1, 1, 0, 0, 0, 0, 0, None, None, Some(&mut v));
    assert_eq!(zoned_in(&v), (0, 0, "".to_string()));
}

#[test]
fn the_clock_is_cut_to_days_and_times() {
    let mut v: Option<mgp_value> = None;
    mgp_date_now(86_400 * 3 + 7, None, Some(&mut v));
    assert_eq!(date_in(&v), 3);
    mgp_local_time_now(DAY * 3 + 7, None, Some(&mut v));
    assert_eq!(time_in(&v), 7);
    mgp_local_date_time_now(DAY * 3 + 7, None, Some(&mut v));
    assert_eq!(moment_in(&v), DAY * 3 + 7);
    mgp_zoned_date_time_now(5, None, Some(&mut v));
    assert_eq!(zoned_in(&v), (5, 0, "UTC".to_string()));
}

#[test]
fn time_parts_add_up_again() {
    let micros: i64 = 14 * 3_600_000_000 + 30 * 60_000_000 + 45 * 1_000_000 + 123_456;
    assert_eq!(time_parts_from_micros(micros), (14, 30, 45, 123, 456));
    // Times before midnight are cut towards zero
    assert_eq!(time_parts_from_micros(-1_001), (0, 0, 0, -1, -1));
    assert_eq!(ldt_date_parts(-1), (1969, 12, 31));
    assert_eq!(ldt_date_parts(-DAY), (1969, 12, 31));
    assert_eq!(ldt_date_parts(-DAY - 1), (1969, 12, 30));
}

#[test]
fn moments_before_the_epoch_have_their_own_day() {
    let dt = mgp_local_date_time { micros: -1 };
    let mut n: i64 = 0;
    mgp_local_date_time_get_day(Some(&dt), Some(&mut n));
    assert_eq!(n, 31);
    mgp_local_date_time_get_hour(Some(&dt), Some(&mut n));
    assert_eq!(n, 23);
    mgp_local_date_time_get_millisecond(Some(&dt), Some(&mut n));
    assert_eq!(n, 999);
    mgp_local_date_time_get_microsecond(Some(&dt), Some(&mut n));
    assert_eq!(n, 999);
}

#[test]
fn durations_in_a_row_add_up() {
    assert_eq!(parse_duration_str("P1Y2D", &fraction), Some((12, 2, 0)));
    assert_eq!(parse_duration_str("P3MT1.5S", &fraction), Some((3, 0, 1_500_000)));
    assert_eq!(parse_duration_str("P1Y2D3MT1.5S", &fraction), Some((15, 2, 1_500_000)));
}

#[test]
fn durations_move_dates_and_moments() {
    let mut v: Option<mgp_value> = None;
    let d = duration(1, 2, 3);
    assert_eq!(mgp_date_add_duration(Some(&mgp_date { days: 10 }), Some(&d), None, Some(&mut v)), MgpError::NoError);
    assert_eq!(date_in(&v), 42);
    mgp_date_sub_duration(Some(&mgp_date { days: 42 }), Some(&d), None, Some(&mut v));
    assert_eq!(date_in(&v), 10);
    mgp_local_time_add_duration(Some(&mgp_local_time { micros: 10 }), Some(&d), None, Some(&mut v));
    assert_eq!(time_in(&v), 13);
    mgp_local_time_sub_duration(Some(&mgp_local_time { micros: 13 }), Some(&d), None, Some(&mut v));
    assert_eq!(time_in(&v), 10);
    mgp_local_date_time_add_duration(Some(&mgp_local_date_time { micros: 10 }), Some(&d), None, Some(&mut v));
    assert_eq!(moment_in(&v), 13 + 32 * DAY);
    mgp_local_date_time_sub_duration(Some(&mgp_local_date_time { micros: 13 + 32 * DAY }), Some(&d), None, Some(&mut v));
    assert_eq!(moment_in(&v), 10);
    let z = mgp_zoned_date_time { micros: 10, offset: 60, tz: "X".to_string() };
    mgp_zoned_date_time_add_duration(Some(&z), Some(&d), None, Some(&mut v));
    assert_eq!(zoned_in(&v), (13 + 32 * DAY, 60, "X".to_string()));
    mgp_zoned_date_time_sub_duration(Some(&z), Some(&d), None, Some(&mut v));
    assert_eq!(zoned_in(&v).0, 7 - 32 * DAY);
    assert_eq!(mgp_date_add_duration(None, Some(&d), None, Some(&mut v)), MgpError::InvalidArgument);
}

#[test]
fn durations_are_added_and_turned() {
    let mut v: Option<mgp_value> = None;
    mgp_duration_add(Some(&duration(1, 2, 3)), Some(&duration(10, 20, 30)), None, Some(&mut v));
    assert_eq!(duration_in(&v), duration(11, 22, 33));
    mgp_duration_sub(Some(&duration(1, 2, 3)), Some(&duration(10, 20, 30)), None, Some(&mut v));
    assert_eq!(duration_in(&v), duration(-9, -18, -27));
    mgp_duration_neg(Some(&duration(1, -2, 3)), None, Some(&mut v));
    assert_eq!(duration_in(&v), duration(-1, 2, -3));
    mgp_duration_from_microseconds(8, None, Some(&mut v));
    assert_eq!(duration_in(&v), duration(0, 0, 8));
    mgp_duration_from_parameters(4, 5, 6, None, Some(&mut v));
    assert_eq!(duration_in(&v), duration(4, 5, 6));
    mgp_duration_copy(Some(&duration(7, 8, 9)), None, Some(&mut v));
    assert_eq!(duration_in(&v), duration(7, 8, 9));
    let mut n = 0i64;
    mgp_duration_get_microseconds(Some(&duration(7, 8, 9)), Some(&mut n));
    assert_eq!(n, 9);
    let mut eq = 9i32;
    // Only the microseconds count
    mgp_duration_equal(Some(&duration(1, 1, 9)), Some(&duration(2, 2, 9)), Some(&mut eq));
    assert_eq!(eq, 1);
    mgp_duration_equal(Some(&duration(1, 1, 8)), Some(&duration(1, 1, 9)), Some(&mut eq));
    assert_eq!(eq, 0);
}

#[test]
fn moments_are_copied_compared_and_told_apart() {
    let mut v: Option<mgp_value> = None;
    let mut eq = 9i32;
    let mut d: Option<mgp_duration> = None;
    let (a, b) = (mgp_date { days: 5 }, mgp_date { days: 3 });
    mgp_date_copy(Some(&a), None, Some(&mut v));
    assert_eq!(date_in(&v), 5);
    mgp_date_equal(Some(&a), Some(&b), Some(&mut eq));
    assert_eq!(eq, 0);
    mgp_date_diff(Some(&a), Some(&b), Some(&mut d));
    assert_eq!(d, Some(duration(0, 2, 0)));
    let (a, b) = (mgp_local_time { micros: 5 }, mgp_local_time { micros: 5 });
    mgp_local_time_copy(Some(&a), None, Some(&mut v));
    assert_eq!(time_in(&v), 5);
    mgp_local_time_equal(Some(&a), Some(&b), Some(&mut eq));
    assert_eq!(eq, 1);
    mgp_local_time_diff(Some(&a), Some(&b), Some(&mut d));
    assert_eq!(d, Some(duration(0, 0, 0)));
    let (a, b) = (mgp_local_date_time { micros: 5 }, mgp_local_date_time { micros: 9 });
    mgp_local_date_time_copy(Some(&a), None, Some(&mut v));
    assert_eq!(moment_in(&v), 5);
    mgp_local_date_time_equal(Some(&a), Some(&b), Some(&mut eq));
    assert_eq!(eq, 0);
    mgp_local_date_time_diff(Some(&a), Some(&b), Some(&mut d));
    assert_eq!(d, Some(duration(0, 0, -4)));
    let a = mgp_zoned_date_time { micros: 5, offset: 1, tz: "A".to_string() };
    let b = mgp_zoned_date_time { micros: 5, offset: 1, tz: "B".to_string() };
    let c = mgp_zoned_date_time { micros: 5, offset: 2, tz: "A".to_string() };
    mgp_zoned_date_time_copy(Some(&a), None, Some(&mut v));
    assert_eq!(zoned_in(&v), (5, 1, "A".to_string()));
    mgp_zoned_date_time_equal(Some(&a), Some(&b), Some(&mut eq));
    assert_eq!(eq, 1);
    mgp_zoned_date_time_equal(Some(&a), Some(&c), Some(&mut eq));
    assert_eq!(eq, 0);
    mgp_zoned_date_time_diff(Some(&a), Some(&c), Some(&mut d));
    assert_eq!(d, Some(duration(0, 0, 0)));
}

#[test]
fn durations_are_read_from_their_notation() {
    assert_eq!(parse_duration_str("P1Y2M3DT4H5M6S", &fraction), Some((14, 3, 14_706_000_000)));
    assert_eq!(parse_duration_str(" \u{a0}P1D\u{2003}\n", &fraction), Some((0, 1, 0)));
    assert_eq!(parse_duration_str("PT1.5S", &fraction), Some((0, 0, 1_500_000)));
    assert_eq!(parse_duration_str("P-1M+2D", &fraction), Some((-1, 2, 0)));
    assert_eq!(parse_duration_str("P", &fraction), Some((0, 0, 0)));
    assert_eq!(parse_duration_str("P1M1D", &fraction), Some((1, 1, 0)));
    assert_eq!(parse_duration_str("", &fraction), None);
    assert_eq!(parse_duration_str("1D", &fraction), None);
    assert_eq!(parse_duration_str("P1", &fraction), None);
    assert_eq!(parse_duration_str("PD", &fraction), None);
    assert_eq!(parse_duration_str("P1X", &fraction), None);
    assert_eq!(parse_duration_str("P1.5D", &fraction), None);
    assert_eq!(parse_duration_str("PT1.5.5S", &fraction), None);
    let mut v: Option<mgp_value> = None;
    assert_eq!(mgp_duration_from_string("P1DT2S", &fraction, None, Some(&mut v)), MgpError::NoError);
    assert_eq!(duration_in(&v), duration(0, 1, 2_000_000));
    assert_eq!(mgp_duration_from_string("now", &fraction, None, Some(&mut v)), MgpError::InvalidArgument);
    assert!(v.is_none());
}

#[test]
fn durations_that_are_too_large_are_told() {
    assert!(keeps_within("P9223372036854775807D", &fraction));
    assert!(!keeps_within("P9223372036854775807D1D", &fraction));
    assert!(!keeps_within("PT9223372036854775807S", &fraction));
    // The reading stops before the sum would be too large
    assert!(keeps_within("P1X9223372036854775807Y", &fraction));
    assert!(keeps_within("soon", &fraction));
}

#[test]
fn integers_are_read_within_their_range() {
    let chars = |s: &str| -> Vec<char> { s.chars().collect() };
    for s in ["0", "-0", "+7", "9223372036854775807", "-9223372036854775808", "9223372036854775808", "-9223372036854775809", "", "-", "1a", "--1", "٣"] {
        assert_eq!(parse_integer(&chars(s)), s.parse::<i64>().ok());
    }
}

#[test]
fn points_are_the_same_by_number() {
    let p = mgp_point_2d { crs: 7203, x: 0.0f64.to_bits(), y: 2.5f64.to_bits() };
    let q = mgp_point_2d { crs: 7203, x: (-0.0f64).to_bits(), y: 2.5f64.to_bits() };
    let n = mgp_point_2d { crs: 7203, x: f64::NAN.to_bits(), y: 2.5f64.to_bits() };
    let mut eq = 9i32;
    assert_eq!(mgp_point_2d_equal(Some(&p), Some(&q), Some(&mut eq)), MgpError::NoError);
    assert_eq!(eq, 1);
    mgp_point_2d_equal(Some(&n), Some(&n), Some(&mut eq));
    assert_eq!(eq, 0);
    let other = mgp_point_2d { crs: 4326, ..p };
    mgp_point_2d_equal(Some(&p), Some(&other), Some(&mut eq));
    assert_eq!(eq, 0);
    let mut x = 0u64;
    mgp_point_2d_get_x(Some(&p), Some(&mut x));
    assert_eq!(f64::from_bits(x), 0.0);
    mgp_point_2d_get_y(Some(&p), Some(&mut x));
    assert_eq!(f64::from_bits(x), 2.5);
    let mut srid = 0u16;
    mgp_point_2d_get_srid(Some(&p), Some(&mut srid));
    assert_eq!(srid, 7203);
    let mut copy: Option<mgp_point_2d> = None;
    mgp_point_2d_copy(Some(&p), None, Some(&mut copy));
    assert_eq!(copy, Some(p));
    let mut v: Option<mgp_value> = None;
    mgp_point_2d_make(7203, p.x, p.y, None, Some(&mut v));
    mgp_value_get_point_2d(v.as_ref(), Some(&mut copy));
    assert_eq!(copy, Some(p));

    let p = mgp_point_3d { crs: 9157, x: 1.0f64.to_bits(), y: 2.0f64.to_bits(), z: 3.0f64.to_bits() };
    let q = mgp_point_3d { z: 4.0f64.to_bits(), ..p };
    mgp_point_3d_equal(Some(&p), Some(&p), Some(&mut eq));
    assert_eq!(eq, 1);
    mgp_point_3d_equal(Some(&p), Some(&q), Some(&mut eq));
    assert_eq!(eq, 0);
    mgp_point_3d_get_x(Some(&p), Some(&mut x));
    assert_eq!(f64::from_bits(x), 1.0);
    mgp_point_3d_get_y(Some(&p), Some(&mut x));
    assert_eq!(f64::from_bits(x), 2.0);
    mgp_point_3d_get_z(Some(&p), Some(&mut x));
    assert_eq!(f64::from_bits(x), 3.0);
    mgp_point_3d_get_srid(Some(&p), Some(&mut srid));
    assert_eq!(srid, 9157);
    let mut copy: Option<mgp_point_3d> = None;
    mgp_point_3d_copy(Some(&p), None, Some(&mut copy));
    assert_eq!(copy, Some(p));
    mgp_point_3d_make(9157, p.x, p.y, p.z, None, Some(&mut v));
    mgp_value_get_point_3d(v.as_ref(), Some(&mut copy));
    assert_eq!(copy, Some(p));
}

#[test]
fn members_are_the_same_by_both_names() {
    let make = |t: &str, m: &str| -> mgp_enum {
        let mut e: Option<mgp_enum> = None;
        assert_eq!(mgp_enum_make(Some(t), Some(m), None, Some(&mut e)), MgpError::NoError);
        e.unwrap()
    };
    let red = make("Color", "Red");
    let mut name: Option<String> = None;
    mgp_enum_get_type_name(Some(&red), Some(&mut name));
    assert_eq!(name.as_deref(), Some("Color"));
    mgp_enum_get_value_name(Some(&red), Some(&mut name));
    assert_eq!(name.as_deref(), Some("Red"));
    let mut copy: Option<mgp_enum> = None;
    mgp_enum_copy(Some(&red), None, Some(&mut copy));
    let mut eq = 9i32;
    mgp_enum_equal(Some(&red), copy.as_ref(), Some(&mut eq));
    assert_eq!(eq, 1);
    mgp_enum_equal(Some(&red), Some(&make("Color", "Blue")), Some(&mut eq));
    assert_eq!(eq, 0);
    mgp_enum_equal(Some(&red), Some(&make("Shade", "Red")), Some(&mut eq));
    assert_eq!(eq, 0);
    assert_eq!(mgp_enum_make(None, Some("Red"), None, Some(&mut copy)), MgpError::InvalidArgument);
}
