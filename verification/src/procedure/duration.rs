//! Durations in the notation of ISO 8601: `P[n]Y[n]M[n]DT[n]H[n]M[n]S`.
use vstd::prelude::*;

verus! {

/// Whether a character is white space, by the property of that name in Unicode.
pub open spec fn is_white(c: char) -> bool {
    let n = c as u32;
    ||| 0x9 <= n <= 0xd
    ||| n == 0x20
    ||| n == 0x85
    ||| n == 0xa0
    ||| n == 0x1680
    ||| 0x2000 <= n <= 0x200a
    ||| n == 0x2028
    ||| n == 0x2029
    ||| n == 0x202f
    ||| n == 0x205f
    ||| n == 0x3000
}

fn white(c: char) -> (r: bool)
    ensures
        r == is_white(c),
{
    let n: u32 = c as u32;
    (0x9 <= n && n <= 0xd) || n == 0x20 || n == 0x85 || n == 0xa0 || n == 0x1680 || (0x2000 <= n && n <= 0x200a) || n
        == 0x2028 || n == 0x2029 || n == 0x202f || n == 0x205f || n == 0x3000
}

/// The text without white space at its start.
pub open spec fn without_leading(s: Seq<char>) -> Seq<char>
    decreases s.len(),
{
    if s.len() > 0 && is_white(s[0]) {
        without_leading(s.skip(1))
    } else {
        s
    }
}

/// The text without white space at its end.
pub open spec fn without_trailing(s: Seq<char>) -> Seq<char>
    decreases s.len(),
{
    if s.len() > 0 && is_white(s.last()) {
        without_trailing(s.drop_last())
    } else {
        s
    }
}

/// The text without white space at its ends.
pub open spec fn trimmed(s: Seq<char>) -> Seq<char> {
    without_trailing(without_leading(s))
}

/// Finds the text without white space at its ends: the positions where it starts and stops.
fn trim(s: &str) -> (r: (usize, usize))
    ensures
        r.0 <= r.1 <= s@.len(),
        s@.subrange(r.0 as int, r.1 as int) == trimmed(s@),
{
    let len: usize = s.unicode_len();
    let mut start: usize = 0;
    assert(s@.skip(0) =~= s@);
    while start < len && white(s.get_char(start))
        invariant
            start <= len == s@.len(),
            without_leading(s@.skip(start as int)) == without_leading(s@),
        decreases len - start,
    {
        assert(s@.skip(start as int).skip(1) =~= s@.skip(start + 1));
        start += 1;
    }
    let ghost rest = without_leading(s@);
    assert(rest == s@.skip(start as int));
    let mut stop: usize = len;
    assert(s@.subrange(start as int, len as int) =~= rest);
    while stop > start && white(s.get_char(stop - 1))
        invariant
            start <= stop <= len == s@.len(),
            rest == without_leading(s@),
            without_trailing(s@.subrange(start as int, stop as int)) == without_trailing(rest),
        decreases stop,
    {
        assert(s@.subrange(start as int, stop as int).drop_last() =~= s@.subrange(start as int, stop - 1));
        stop -= 1;
    }
    (start, stop)
}

/// The value of a digit.
pub open spec fn digit(c: char) -> int {
    c as int - '0' as int
}

/// Whether a character is a digit.
pub open spec fn is_digit(c: char) -> bool {
    '0' <= c <= '9'
}

/// The value of a sequence of digits.
pub open spec fn digits_value(s: Seq<char>) -> int
    decreases s.len(),
{
    if s.len() == 0 {
        0
    } else {
        digits_value(s.drop_last()) * 10 + digit(s.last())
    }
}

/// Whether a sequence holds digits alone.
pub open spec fn all_digits(s: Seq<char>) -> bool {
    forall|i: int| 0 <= i < s.len() ==> is_digit(#[trigger] s[i])
}

/// The digits of a number behind its sign.
pub open spec fn unsigned_part(s: Seq<char>) -> Seq<char> {
    if s.len() > 0 && (s[0] == '-' || s[0] == '+') {
        s.skip(1)
    } else {
        s
    }
}

/// The value of a number with its sign.
pub open spec fn signed_value(s: Seq<char>) -> int {
    if s.len() > 0 && s[0] == '-' {
        -digits_value(unsigned_part(s))
    } else {
        digits_value(unsigned_part(s))
    }
}

/// The integer that a text stands for: digits, with a sign before them or not, of a value that the
/// machine's integers hold.
pub open spec fn read_integer(s: Seq<char>) -> Option<int> {
    let body = unsigned_part(s);
    if body.len() > 0 && all_digits(body) && i64::MIN <= signed_value(s) <= i64::MAX {
        Some(signed_value(s))
    } else {
        None
    }
}

/// What stands between units so far, and the parts that were read.
pub struct Reading {
    pub months: int,
    pub days: int,
    pub micros: int,
    pub number: Seq<char>,
    pub in_time: bool,
}

/// The microseconds that a function reads from a number of seconds with a point.
pub open spec fn fraction_of<F: Fn(&str) -> Option<i64>>(fraction: F, s: Seq<char>) -> Option<i64> {
    choose|r: Option<i64>| has_fraction(fraction, s, r)
}

pub open spec fn has_fraction<F: Fn(&str) -> Option<i64>>(fraction: F, s: Seq<char>, r: Option<i64>) -> bool {
    exists|t: &str| t@ == s && #[trigger] call_ensures(fraction, (t,), r)
}

/// A function that may be asked about any text, and gives one answer for each.
pub open spec fn reads_fractions<F: Fn(&str) -> Option<i64>>(fraction: F) -> bool {
    &&& forall|t: &str| #[trigger] call_requires(fraction, (t,))
    &&& forall|t: &str, r: Option<i64>| #[trigger] call_ensures(fraction, (t,), r) ==> r == fraction_of(fraction, t@)
}

/// Whether a character belongs to a number.
pub open spec fn is_number_char(c: char) -> bool {
    is_digit(c) || c == '-' || c == '+' || c == '.'
}

/// The number before a unit, times the weight of the unit; none where it is no integer.
pub open spec fn weighed(s: Reading, weight: int) -> Option<int> {
    match read_integer(s.number) {
        Some(n) => Some(n * weight),
        None => None,
    }
}

/// The microseconds of a number of seconds.
pub open spec fn seconds<F: Fn(&str) -> Option<i64>>(fraction: F, s: Reading) -> Option<int> {
    if s.number.contains('.') {
        match fraction_of(fraction, s.number) {
            Some(us) => Some(us as int),
            None => None,
        }
    } else {
        weighed(s, 1_000_000)
    }
}

pub open spec fn plus_months(s: Reading, n: Option<int>) -> Option<Reading> {
    match n {
        Some(n) => Some(Reading { months: s.months + n, number: Seq::empty(), ..s }),
        None => None,
    }
}

pub open spec fn plus_days(s: Reading, n: Option<int>) -> Option<Reading> {
    match n {
        Some(n) => Some(Reading { days: s.days + n, number: Seq::empty(), ..s }),
        None => None,
    }
}

pub open spec fn plus_micros(s: Reading, n: Option<int>) -> Option<Reading> {
    match n {
        Some(n) => Some(Reading { micros: s.micros + n, number: Seq::empty(), ..s }),
        None => None,
    }
}

/// What the unit at hand stands for, in its smallest measure.
pub open spec fn unit_amount<F: Fn(&str) -> Option<i64>>(fraction: F, s: Reading, c: char) -> Option<int> {
    if c == 'Y' {
        weighed(s, 12)
    } else if c == 'M' && s.in_time {
        weighed(s, 60_000_000)
    } else if c == 'M' || c == 'D' {
        weighed(s, 1)
    } else if c == 'H' {
        weighed(s, 3_600_000_000)
    } else {
        seconds(fraction, s)
    }
}

/// The reading after one more character; none where the character does not belong there.
pub open spec fn read_char<F: Fn(&str) -> Option<i64>>(fraction: F, s: Reading, c: char) -> Option<Reading> {
    if c == 'T' {
        Some(Reading { in_time: true, ..s })
    } else if is_number_char(c) {
        Some(Reading { number: s.number.push(c), ..s })
    } else if c == 'Y' {
        plus_months(s, unit_amount(fraction, s, c))
    } else if c == 'M' && s.in_time {
        plus_micros(s, unit_amount(fraction, s, c))
    } else if c == 'M' {
        plus_months(s, unit_amount(fraction, s, c))
    } else if c == 'D' {
        plus_days(s, unit_amount(fraction, s, c))
    } else if c == 'H' || c == 'S' {
        plus_micros(s, unit_amount(fraction, s, c))
    } else {
        None
    }
}

/// The reading after the first `k` characters.
pub open spec fn read_chars<F: Fn(&str) -> Option<i64>>(fraction: F, t: Seq<char>, k: nat) -> Option<Reading>
    decreases k,
{
    if k == 0 {
        Some(Reading { months: 0, days: 0, micros: 0, number: Seq::empty(), in_time: false })
    } else {
        match read_chars(fraction, t, (k - 1) as nat) {
            Some(s) => read_char(fraction, s, t[k - 1]),
            None => None,
        }
    }
}

/// The characters behind the leading `P`, if there is one.
pub open spec fn duration_body(s: Seq<char>) -> Option<Seq<char>> {
    let t = trimmed(s);
    if t.len() > 0 && t[0] == 'P' {
        Some(t.skip(1))
    } else {
        None
    }
}

/// The months, days and microseconds that a text stands for. It ends with a unit.
pub open spec fn read_duration<F: Fn(&str) -> Option<i64>>(fraction: F, s: Seq<char>) -> Option<(int, int, int)> {
    match duration_body(s) {
        Some(t) => match read_chars(fraction, t, t.len()) {
            Some(r) => if r.number.len() == 0 {
                Some((r.months, r.days, r.micros))
            } else {
                None
            },
            None => None,
        },
        None => None,
    }
}

pub open spec fn fits(n: int) -> bool {
    i64::MIN <= n <= i64::MAX
}

/// Whether the parts that were read are among the machine's integers.
pub open spec fn reading_fits(s: Reading) -> bool {
    fits(s.months) && fits(s.days) && fits(s.micros)
}

/// Whether the amount of each unit, and each sum on the way, is among the machine's integers.
pub open spec fn duration_fits<F: Fn(&str) -> Option<i64>>(fraction: F, s: Seq<char>) -> bool {
    duration_body(s) matches Some(t) ==> forall|k: nat|
        k < t.len() ==> (#[trigger] read_chars(fraction, t, k) matches Some(r) ==> step_fits(fraction, r, t[k as int]))
}

/// Whether one more character keeps within the machine's integers.
pub open spec fn step_fits<F: Fn(&str) -> Option<i64>>(fraction: F, s: Reading, c: char) -> bool {
    &&& (c == 'Y' || c == 'M' || c == 'D' || c == 'H' || c == 'S') ==> (unit_amount(fraction, s, c) matches Some(n) ==> fits(n))
    &&& (read_char(fraction, s, c) matches Some(r) ==> reading_fits(r))
}

fn read_digit(c: char) -> (r: i64)
    requires
        is_digit(c),
    ensures
        r == digit(c),
        0 <= r <= 9,
{
    (c as u32 - '0' as u32) as i64
}

/// The integer that a text stands for.
pub fn parse_integer(s: &Vec<char>) -> (r: Option<i64>)
    ensures
        r is Some <==> read_integer(s@) is Some,
        r matches Some(n) ==> read_integer(s@) == Some(n as int),
{
    let ghost text = s@;
    let ghost body = unsigned_part(text);
    let len: usize = s.len();
    let signed = len > 0 && (s[0] == '-' || s[0] == '+');
    let negative = len > 0 && s[0] == '-';
    let start: usize = if signed {
        1
    } else {
        0
    };
    if start == len {
        return None;
    }
    let mut value: i64 = 0;
    let mut i: usize = start;
    proof {
        assert(body =~= text.skip(start as int));
        assert(body.take(0) =~= Seq::<char>::empty());
    }
    while i < len
        invariant
            text == s@,
            len == text.len(),
            start <= i <= len,
            start < len,
            body == unsigned_part(text),
            body == text.skip(start as int),
            body.len() == len - start,
            negative <==> text[0] == '-',
            forall|j: int| 0 <= j < i - start ==> is_digit(#[trigger] body[j]),
            value == if negative {
                -digits_value(body.take(i - start))
            } else {
                digits_value(body.take(i - start))
            },
        decreases len - i,
    {
        let c: char = s[i];
        let ghost k = i - start;
        assert(body[k] == c);
        if !(c >= '0' && c <= '9') {
            assert(!all_digits(body));
            return None;
        }
        let d: i64 = read_digit(c);
        proof {
            assert(body.take(k + 1).drop_last() =~= body.take(k));
            assert(body.take(k + 1).last() == c);
        }
        let tens = value.checked_mul(10);
        let next = match tens {
            Some(t) => if negative {
                t.checked_sub(d)
            } else {
                t.checked_add(d)
            },
            None => None,
        };
        match next {
            Some(n) => {
                value = n;
            },
            None => {
                proof {
                    if all_digits(body) {
                        lemma_digits_grow(body, k + 1, body.len() as int);
                        assert(body.take(body.len() as int) =~= body);
                        lemma_digits_grow(body, 0, k);
                    }
                }
                return None;
            },
        }
        i += 1;
    }
    proof {
        assert(body.take(i - start) =~= body);
    }
    Some(value)
}

proof fn lemma_digits_grow(s: Seq<char>, j: int, k: int)
    requires
        0 <= j <= k <= s.len(),
        forall|i: int| 0 <= i < k ==> is_digit(#[trigger] s[i]),
    ensures
        digits_value(s.take(j)) <= digits_value(s.take(k)),
        0 <= digits_value(s.take(k)),
    decreases k,
{
    if k > 0 {
        assert(s.take(k).drop_last() =~= s.take(k - 1));
        assert(is_digit(s[k - 1]));
        lemma_digits_grow(s, if j < k { j } else { k - 1 }, k - 1);
        if j == k {
            assert(s.take(j) =~= s.take(k));
        }
    }
}

fn char_text(c: char) -> (r: &'static str)
    requires
        is_number_char(c),
    ensures
        r@ == seq![c],
{
    proof {
        reveal_strlit("0");
        reveal_strlit("1");
        reveal_strlit("2");
        reveal_strlit("3");
        reveal_strlit("4");
        reveal_strlit("5");
        reveal_strlit("6");
        reveal_strlit("7");
        reveal_strlit("8");
        reveal_strlit("9");
        reveal_strlit("-");
        reveal_strlit("+");
        reveal_strlit(".");
    }
    let r = match c {
        '0' => "0",
        '1' => "1",
        '2' => "2",
        '3' => "3",
        '4' => "4",
        '5' => "5",
        '6' => "6",
        '7' => "7",
        '8' => "8",
        '9' => "9",
        '-' => "-",
        '+' => "+",
        _ => ".",
    };
    assert(r@ =~= seq![c]);
    r
}

/// The text of the characters of a number.
fn text_of(s: &Vec<char>) -> (r: String)
    requires
        forall|i: int| 0 <= i < s@.len() ==> is_number_char(#[trigger] s@[i]),
    ensures
        r@ == s@,
{
    let mut r = "".to_string();
    let mut i: usize = 0;
    proof {
        reveal_strlit("");
        assert(r@ =~= s@.take(0));
    }
    while i < s.len()
        invariant
            forall|j: int| 0 <= j < s@.len() ==> is_number_char(#[trigger] s@[j]),
            i <= s@.len(),
            r@ == s@.take(i as int),
        decreases s@.len() - i,
    {
        r.append(char_text(s[i]));
        assert(r@ =~= s@.take(i + 1));
        i += 1;
    }
    assert(s@.take(i as int) =~= s@);
    r
}

fn has_point(s: &Vec<char>) -> (r: bool)
    ensures
        r == s@.contains('.'),
{
    let mut i: usize = 0;
    while i < s.len()
        invariant
            i <= s@.len(),
            forall|j: int| 0 <= j < i ==> s@[j] != '.',
        decreases s@.len() - i,
    {
        if s[i] == '.' {
            assert(s@[i as int] == '.');
            return true;
        }
        i += 1;
    }
    false
}

/// What a scan of a text finds.
enum Scan {
    Parts(i64, i64, i64),
    Malformed,
    TooLarge,
}

/// The product of a number before a unit and the weight of the unit.
fn weigh(number: &Vec<char>, weight: i64, Ghost(s): Ghost<Reading>) -> (r: Option<Option<i64>>)
    requires
        s.number == number@,
    ensures
        match r {
            None => weighed(s, weight as int) is None,
            Some(None) => weighed(s, weight as int) is Some && !fits(weighed(s, weight as int)->0),
            Some(Some(n)) => weighed(s, weight as int) == Some(n as int),
        },
{
    match parse_integer(number) {
        Some(n) => Some(n.checked_mul(weight)),
        None => None,
    }
}

/// The microseconds of a number of seconds.
fn weigh_seconds<F: Fn(&str) -> Option<i64>>(number: &Vec<char>, fraction: &F, Ghost(s): Ghost<Reading>) -> (r: Option<Option<i64>>)
    requires
        reads_fractions(*fraction),
        s.number == number@,
        forall|i: int| 0 <= i < number@.len() ==> is_number_char(#[trigger] number@[i]),
    ensures
        match r {
            None => seconds(*fraction, s) is None,
            Some(None) => seconds(*fraction, s) is Some && !fits(seconds(*fraction, s)->0),
            Some(Some(n)) => seconds(*fraction, s) == Some(n as int),
        },
{
    if has_point(number) {
        let text = text_of(number);
        match fraction(text.as_str()) {
            Some(us) => Some(Some(us)),
            None => None,
        }
    } else {
        weigh(number, 1_000_000, Ghost(s))
    }
}

/// The amount of the unit at hand; none within where it is too large.
fn weigh_unit<F: Fn(&str) -> Option<i64>>(
    c: char,
    in_time: bool,
    number: &Vec<char>,
    fraction: &F,
    Ghost(s): Ghost<Reading>,
) -> (r: Option<Option<i64>>)
    requires
        reads_fractions(*fraction),
        s.number == number@,
        s.in_time == in_time,
        c == 'Y' || c == 'M' || c == 'D' || c == 'H' || c == 'S',
        forall|i: int| 0 <= i < number@.len() ==> is_number_char(#[trigger] number@[i]),
    ensures
        match r {
            None => unit_amount(*fraction, s, c) is None,
            Some(None) => unit_amount(*fraction, s, c) is Some && !fits(unit_amount(*fraction, s, c)->0),
            Some(Some(n)) => unit_amount(*fraction, s, c) == Some(n as int),
        },
{
    if c == 'Y' {
        weigh(number, 12, Ghost(s))
    } else if c == 'M' && in_time {
        weigh(number, 60_000_000, Ghost(s))
    } else if c == 'M' || c == 'D' {
        weigh(number, 1, Ghost(s))
    } else if c == 'H' {
        weigh(number, 3_600_000_000, Ghost(s))
    } else {
        weigh_seconds(number, fraction, Ghost(s))
    }
}

fn scan<F: Fn(&str) -> Option<i64>>(s: &str, fraction: &F) -> (r: Scan)
    requires
        reads_fractions(*fraction),
    ensures
        r is TooLarge <==> !duration_fits(*fraction, s@),
        r is Malformed ==> read_duration(*fraction, s@) is None,
        r matches Scan::Parts(a, b, c) ==> read_duration(*fraction, s@) == Some((a as int, b as int, c as int)),
{
    let (start, len) = trim(s);
    if len == start || s.get_char(start) != 'P' {
        return Scan::Malformed;
    }
    let ghost body = trimmed(s@).skip(1);
    assert(duration_body(s@) == Some(body));
    let mut months: i64 = 0;
    let mut days: i64 = 0;
    let mut micros: i64 = 0;
    let mut number: Vec<char> = Vec::new();
    let mut in_time = false;
    let mut i: usize = start + 1;
    assert(number@ =~= Seq::<char>::empty());
    while i < len
        invariant
            reads_fractions(*fraction),
            duration_body(s@) == Some(body),
            body == s@.subrange(start as int, len as int).skip(1),
            start < i <= len <= s@.len(),
            read_chars(*fraction, body, (i - start - 1) as nat) == Some(
                Reading { months: months as int, days: days as int, micros: micros as int, number: number@, in_time },
            ),
            forall|k: nat|
                k < i - start - 1 ==> (#[trigger] read_chars(*fraction, body, k) matches Some(r) ==> step_fits(*fraction, r, body[k as int])),
            forall|j: int| 0 <= j < number@.len() ==> is_number_char(#[trigger] number@[j]),
        decreases len - i,
    {
        let c: char = s.get_char(i);
        let ghost k: int = i - start;
        let ghost now = Reading { months: months as int, days: days as int, micros: micros as int, number: number@, in_time };
        proof {
            assert(body[k - 1] == c);
            assert(read_chars(*fraction, body, (k - 1) as nat) == Some(now));
            assert(read_chars(*fraction, body, k as nat) == read_char(*fraction, now, c));
        }
        if c == 'T' {
            in_time = true;
        } else if (c >= '0' && c <= '9') || c == '-' || c == '+' || c == '.' {
            number.push(c);
        } else if c == 'Y' || c == 'M' || c == 'D' || c == 'H' || c == 'S' {
            let amount = match weigh_unit(c, in_time, &number, fraction, Ghost(now)) {
                Some(amount) => amount,
                None => {
                    proof {
                        lemma_stopped(*fraction, body, k as nat, body.len());
                        lemma_all_fit(*fraction, s@, body, k as nat);
                    }
                    return Scan::Malformed;
                },
            };
            let sum = match amount {
                Some(n) => if c == 'D' {
                    days.checked_add(n)
                } else if c == 'Y' || (c == 'M' && !in_time) {
                    months.checked_add(n)
                } else {
                    micros.checked_add(n)
                },
                None => None,
            };
            match sum {
                Some(n) => {
                    if c == 'D' {
                        days = n;
                    } else if c == 'Y' || (c == 'M' && !in_time) {
                        months = n;
                    } else {
                        micros = n;
                    }
                },
                None => {
                    assert(!step_fits(*fraction, now, body[k - 1]));
                    return Scan::TooLarge;
                },
            }
            number = Vec::new();
        } else {
            proof {
                lemma_stopped(*fraction, body, k as nat, body.len());
                lemma_all_fit(*fraction, s@, body, k as nat);
            }
            return Scan::Malformed;
        }
        proof {
            if number@.len() == 0 {
                assert(number@ =~= Seq::<char>::empty());
            }
            assert(step_fits(*fraction, now, c));
        }
        i += 1;
    }
    if number.len() > 0 {
        return Scan::Malformed;
    }
    Scan::Parts(months, days, micros)
}

/// A text whose reading stops at a character keeps within the machine's integers if each step before
/// it does.
proof fn lemma_all_fit<F: Fn(&str) -> Option<i64>>(fraction: F, s: Seq<char>, t: Seq<char>, j: nat)
    requires
        duration_body(s) == Some(t),
        1 <= j <= t.len(),
        read_chars(fraction, t, j) is None,
        forall|k: nat|
            k < j - 1 ==> (#[trigger] read_chars(fraction, t, k) matches Some(r) ==> step_fits(fraction, r, t[k as int])),
        read_chars(fraction, t, (j - 1) as nat) matches Some(r) && step_fits(fraction, r, t[j - 1]),
    ensures
        duration_fits(fraction, s),
{
    assert forall|k: nat| k < t.len() implies (#[trigger] read_chars(fraction, t, k) matches Some(r) ==> step_fits(fraction, r, t[k as int])) by {
        if k >= j {
            lemma_stopped(fraction, t, j, k);
        }
    }
}

/// Tells whether reading a text keeps within the machine's integers.
pub fn keeps_within<F: Fn(&str) -> Option<i64>>(s: &str, fraction: &F) -> (r: bool)
    requires
        reads_fractions(*fraction),
    ensures
        r == duration_fits(*fraction, s@),
{
    match scan(s, fraction) {
        Scan::TooLarge => false,
        _ => true,
    }
}

/// Reads a duration. Seconds with a point go through `fraction`, which tells the microseconds of
/// such a number, or that it is none.
pub fn parse_duration_str<F: Fn(&str) -> Option<i64>>(s: &str, fraction: &F) -> (r: Option<(i64, i64, i64)>)
    requires
        reads_fractions(*fraction),
        duration_fits(*fraction, s@),
    ensures
        r is Some <==> read_duration(*fraction, s@) is Some,
        r matches Some(d) ==> read_duration(*fraction, s@) == Some((d.0 as int, d.1 as int, d.2 as int)),
{
    match scan(s, fraction) {
        Scan::Parts(months, days, micros) => Some((months, days, micros)),
        _ => None,
    }
}

/// A text with no white space at its ends is trimmed to itself.
pub proof fn lemma_trimmed(s: Seq<char>)
    requires
        s.len() > 0 ==> !is_white(s[0]) && !is_white(s.last()),
    ensures
        trimmed(s) == s,
{
}

/// The reading of a prefix does not depend on what follows.
proof fn lemma_prefix_read<F: Fn(&str) -> Option<i64>>(fraction: F, a: Seq<char>, b: Seq<char>, k: nat)
    requires
        k <= a.len(),
    ensures
        read_chars(fraction, a + b, k) == read_chars(fraction, a, k),
    decreases k,
{
    if k > 0 {
        lemma_prefix_read(fraction, a, b, (k - 1) as nat);
        assert((a + b)[k - 1] == a[k - 1]);
    }
}

/// Without a `T` the reading stays among the units of days.
proof fn lemma_no_time<F: Fn(&str) -> Option<i64>>(fraction: F, t: Seq<char>, k: nat)
    requires
        k <= t.len(),
        forall|i: int| 0 <= i < t.len() ==> #[trigger] t[i] != 'T',
    ensures
        read_chars(fraction, t, k) matches Some(r) ==> !r.in_time,
    decreases k,
{
    if k > 0 {
        lemma_no_time(fraction, t, (k - 1) as nat);
        assert(t[k - 1] != 'T');
    }
}

/// A reading with other amounts added to what was read.
spec fn raised(s: Reading, by: (int, int, int)) -> Reading {
    Reading { months: s.months + by.0, days: s.days + by.1, micros: s.micros + by.2, ..s }
}

/// A text is read behind another as it is read alone, on top of what the other holds.
proof fn lemma_read_behind<F: Fn(&str) -> Option<i64>>(fraction: F, a: Seq<char>, b: Seq<char>, k: nat, by: (int, int, int))
    requires
        k <= b.len(),
        read_chars(fraction, a, a.len()) == Some(
            Reading { months: by.0, days: by.1, micros: by.2, number: Seq::empty(), in_time: false },
        ),
    ensures
        read_chars(fraction, a + b, a.len() + k) == match read_chars(fraction, b, k) {
            Some(r) => Some(raised(r, by)),
            None => None,
        },
    decreases k,
{
    if k == 0 {
        lemma_prefix_read(fraction, a, b, a.len());
    } else {
        lemma_read_behind(fraction, a, b, (k - 1) as nat, by);
        assert((a + b)[a.len() + k - 1] == b[k - 1]);
        if let Some(r) = read_chars(fraction, b, (k - 1) as nat) {
            assert(unit_amount(fraction, raised(r, by), b[k - 1]) == unit_amount(fraction, r, b[k - 1]));
        }
    }
}

/// Two durations written one after the other add up: what one `P` leads is the sum of what a `P` before
/// each leads. The first has no times of day, and neither holds white space.
pub proof fn durations_add_up<F: Fn(&str) -> Option<i64>>(
    fraction: F,
    a: Seq<char>,
    b: Seq<char>,
    first: (int, int, int),
    second: (int, int, int),
)
    requires
        forall|i: int| 0 <= i < a.len() ==> #[trigger] a[i] != 'T' && !is_white(a[i]),
        forall|i: int| 0 <= i < b.len() ==> !is_white(#[trigger] b[i]),
        read_duration(fraction, seq!['P'] + a) == Some(first),
        read_duration(fraction, seq!['P'] + b) == Some(second),
    ensures
        read_duration(fraction, seq!['P'] + a + b) == Some((first.0 + second.0, first.1 + second.1, first.2 + second.2)),
{
    let p = seq!['P'];
    assert(!is_white('P'));
    assert forall|t: Seq<char>| (forall|i: int| 0 <= i < t.len() ==> !is_white(#[trigger] t[i])) implies duration_body(#[trigger] (p + t))
        == Some(t) by {
        let s = p + t;
        assert(s[0] == 'P');
        if t.len() > 0 {
            assert(s.last() == t.last());
            assert(t[t.len() - 1] == t.last());
        }
        lemma_trimmed(s);
        assert(s.skip(1) =~= t);
    }
    let t = a + b;
    assert forall|i: int| 0 <= i < t.len() implies !is_white(#[trigger] t[i]) by {
        if i < a.len() {
            assert(t[i] == a[i]);
        } else {
            assert(t[i] == b[i - a.len()]);
        }
    }
    assert(p + a + b =~= p + t);
    assert(duration_body(p + a) == Some(a));
    assert(duration_body(p + b) == Some(b));
    assert(duration_body(p + t) == Some(t));
    lemma_no_time(fraction, a, a.len());
    let r = read_chars(fraction, a, a.len())->0;
    assert(r.number =~= Seq::<char>::empty());
    lemma_read_behind(fraction, a, b, b.len(), first);
}

/// A reading that has stopped does not go on.
proof fn lemma_stopped<F: Fn(&str) -> Option<i64>>(fraction: F, t: Seq<char>, j: nat, k: nat)
    requires
        read_chars(fraction, t, j) is None,
        j <= k,
    ensures
        read_chars(fraction, t, k) is None,
    decreases k - j,
{
    if j < k {
        lemma_stopped(fraction, t, j, (k - 1) as nat);
    }
}

} // verus!
