//! What numbers, durations and moments stand for.
use vstd::prelude::*;

use crate::procedure::calendar::{day_number, is_date, is_leap};
use crate::procedure::duration::{all_digits, digits_value, duration_body, is_digit, is_number_char, lemma_trimmed, read_char, read_chars, read_duration, read_integer, unsigned_part, Reading};
use crate::procedure::search::similarity;
use crate::procedure::temporal::{date_minus, date_plus, moment_minus, moment_plus, rest_of_day, time_parts, whole_days};
use crate::procedure::value::mgp_duration;
use crate::quantity::{value, whole, Numbers, Quantity};
use crate::text::{decimal, signed_decimal};

verus! {

proof fn lemma_decimal_reads_back(n: nat)
    ensures
        decimal(n).len() > 0,
        all_digits(decimal(n)),
        digits_value(decimal(n)) == n,
    decreases n,
{
    if n < 10 {
        let s = decimal(n);
        assert(s.drop_last() =~= Seq::<char>::empty());
        assert(digits_value(s.drop_last()) == 0);
        assert(digits_value(s) == digits_value(s.drop_last()) * 10 + (s.last() as int - '0' as int));
    } else {
        lemma_decimal_reads_back(n / 10);
        let before = decimal(n / 10);
        let s = decimal(n);
        assert(s.drop_last() =~= before);
        assert(s.last() as int - '0' as int == n % 10);
        assert forall|i: int| 0 <= i < s.len() implies is_digit(#[trigger] s[i]) by {
            if i < before.len() {
                assert(is_digit(before[i]));
            }
        }
    }
}

/// A number that was written in decimal reads back as itself.
pub proof fn numbers_read_back(n: int)
    requires
        i64::MIN <= n <= i64::MAX,
    ensures
        read_integer(signed_decimal(n)) == Some(n),
{
    let s = signed_decimal(n);
    if n < 0 {
        lemma_decimal_reads_back((-n) as nat);
        assert(s[0] == '-');
        assert(s.skip(1) =~= decimal((-n) as nat));
    } else {
        lemma_decimal_reads_back(n as nat);
        let body = decimal(n as nat);
        assert(is_digit(body[0]));
    }
}

/// The number before a unit.
proof fn lemma_number_is_read<F: Fn(&str) -> Option<i64>>(fraction: F, t: Seq<char>, from: nat, number: Seq<char>, k: nat, start: Reading)
    requires
        k <= number.len(),
        from + number.len() <= t.len(),
        forall|i: int| 0 <= i < number.len() ==> t[from + i] == #[trigger] number[i] && is_number_char(number[i]),
        read_chars(fraction, t, from) == Some(start),
        start.number == Seq::<char>::empty(),
    ensures
        read_chars(fraction, t, from + k) == Some(Reading { number: number.take(k as int), ..start }),
    decreases k,
{
    if k == 0 {
        assert(number.take(0) =~= Seq::<char>::empty());
    } else {
        lemma_number_is_read(fraction, t, from, number, (k - 1) as nat, start);
        assert(number.take(k - 1).push(number[k - 1]) =~= number.take(k as int));
        assert(t[from + (k - 1)] == number[k - 1]);
    }
}

/// The months, days and microseconds that one unit stands for.
pub open spec fn unit_parts(unit: char, in_time: bool, n: int) -> (int, int, int) {
    if in_time {
        if unit == 'H' {
            (0, 0, n * 60 * 60 * 1_000_000)
        } else if unit == 'M' {
            (0, 0, n * 60 * 1_000_000)
        } else {
            (0, 0, n * 1_000_000)
        }
    } else if unit == 'Y' {
        (n * 12, 0, 0)
    } else if unit == 'M' {
        (n, 0, 0)
    } else {
        (0, n, 0)
    }
}

/// A number with one unit behind it, of days or behind a `T` of times, reads as so many of the unit: a year
/// is twelve months, an hour sixty minutes, a minute sixty seconds.
pub proof fn units_read_as_their_parts<F: Fn(&str) -> Option<i64>>(fraction: F, number: Seq<char>, n: int, unit: char, in_time: bool)
    requires
        read_integer(number) == Some(n),
        in_time ==> unit == 'H' || unit == 'M' || unit == 'S',
        !in_time ==> unit == 'Y' || unit == 'M' || unit == 'D',
    ensures
        read_duration(
            fraction,
            seq!['P'] + (if in_time {
                seq!['T']
            } else {
                Seq::empty()
            }) + number.push(unit),
        ) == Some(unit_parts(unit, in_time, n)),
{
    let lead = if in_time {
        seq!['T']
    } else {
        Seq::empty()
    };
    let from = lead.len();
    let t = lead + number.push(unit);
    let s = seq!['P'] + lead + number.push(unit);
    let body = unsigned_part(number);
    assert forall|i: int| 0 <= i < number.len() implies is_number_char(#[trigger] number[i]) && number[i] != '.' && t[from + i] == number[i] by {
        if body.len() == number.len() {
            assert(body == number);
            assert(is_digit(body[i]));
        } else if i > 0 {
            assert(is_digit(body[i - 1]));
        }
    }
    assert(s.skip(1) =~= t);
    assert(s[0] == 'P');
    assert(s.last() == unit);
    lemma_trimmed(s);
    assert(duration_body(s) == Some(t));
    let none = Reading { months: 0, days: 0, micros: 0, number: Seq::empty(), in_time: false };
    assert(read_chars(fraction, t, 0) == Some(none));
    let start = Reading { in_time, ..none };
    if in_time {
        assert(t[0] == 'T');
        assert(read_chars(fraction, t, 1) == Some(start));
    }
    assert(read_chars(fraction, t, from) == Some(start));
    lemma_number_is_read(fraction, t, from, number, number.len(), start);
    assert(number.take(number.len() as int) =~= number);
    let before = Reading { number, ..start };
    assert(t[(from + number.len()) as int] == unit);
    assert(t.len() == from + number.len() + 1);
    assert(!number.contains('.'));
    assert(read_chars(fraction, t, t.len()) == read_char(fraction, before, unit));
}

/// A time of day is told by its parts within their bounds.
pub proof fn time_parts_stay_in_bounds(micros: int)
    requires
        micros >= 0,
    ensures
        ({
            let p = time_parts(micros);
            &&& 0 <= p.0
            &&& 0 <= p.1 < 60
            &&& 0 <= p.2 < 60
            &&& 0 <= p.3 < 1000
            &&& 0 <= p.4 < 1000
        }),
{
}

/// To add a duration without times to a moment moves its date as adding it to the date does, and keeps the
/// time of day; a duration of times alone does not depend on the date. To add two durations in turn is to
/// add their parts.
pub proof fn moments_move_as_their_dates(micros: int, d: mgp_duration, e: mgp_duration, f: mgp_duration)
    requires
        f.months == d.months + e.months,
        f.days == d.days + e.days,
        f.micros == d.micros + e.micros,
    ensures
        d.micros == 0 ==> whole_days(moment_plus(micros, d)) == date_plus(whole_days(micros), d),
        d.micros == 0 ==> rest_of_day(moment_plus(micros, d)) == rest_of_day(micros),
        d.micros == 0 ==> whole_days(moment_minus(micros, d)) == date_minus(whole_days(micros), d),
        d.months == 0 && d.days == 0 ==> moment_plus(micros, d) == micros + d.micros,
        moment_plus(moment_plus(micros, d), e) == moment_plus(micros, f),
        date_plus(date_plus(micros, d), e) == date_plus(micros, f),
        whole_days(micros) * 86_400_000_000 + rest_of_day(micros) == micros,
        0 <= rest_of_day(micros) < 86_400_000_000,
{
}

/// The day after a date: the next of its month, or the first of the next month, or that of the next year.
pub open spec fn next_date(y: int, m: int, d: int) -> (int, int, int) {
    if is_date(y, m, d + 1) {
        (y, m, d + 1)
    } else if m < 12 {
        (y, m + 1, 1)
    } else {
        (y + 1, 1, 1)
    }
}

/// Dates that follow each other have numbers that follow each other. A year has twelve months, the second of
/// twenty-eight days or, in a leap year, twenty-nine; four hundred years have 146097 days.
pub proof fn days_follow_each_other(y: int, m: int, d: int)
    requires
        is_date(y, m, d),
    ensures
        day_number(next_date(y, m, d).0, next_date(y, m, d).1, next_date(y, m, d).2) == day_number(y, m, d) + 1,
        day_number(y + 400, m, d) == day_number(y, m, d) + 146097,
        m == 2 ==> d <= 29 && (d == 29 ==> y % 4 == 0),
{
    let z = y - 1;
    assert((z + 400) / 4 == z / 4 + 100 && (z + 400) / 100 == z / 100 + 4 && (z + 400) / 400 == z / 400 + 1);
    assert(is_leap(y + 400) == is_leap(y));
}

/// Of two things the nearer one is the more similar; what is at no distance has similarity one.
pub proof fn nearer_is_more_similar(m: Numbers, a: Quantity, b: Quantity)
    requires
        value(m, a) >= whole(0),
        value(m, b) >= whole(0),
    ensures
        value(m, a) < value(m, b) ==> value(m, similarity(a)) > value(m, similarity(b)),
        value(m, a) == whole(0) ==> value(m, similarity(a)) == whole(1),
        value(m, similarity(a)) * (whole(1) + value(m, a)) == whole(1),
{
    reveal_with_fuel(value, 3);
    let x = whole(1) + value(m, a);
    let y = whole(1) + value(m, b);
    assert(whole(1) / x * x == whole(1) && (x < y ==> whole(1) / x > whole(1) / y)) by (nonlinear_arith)
        requires
            x > 0int as real,
            y > 0int as real,
            whole(1) == 1int as real,
    ;
    assert(x == whole(1) ==> whole(1) / x == whole(1)) by (nonlinear_arith)
        requires
            whole(1) == 1int as real,
    ;
}

} // verus!
