//! The due-date model and its text codec.
//!
//! A due date is a UTC calendar date and time of day with second precision.
//! It is stored as the 20-character timestamp text `YYYY-MM-DDTHH:MM:SSZ`;
//! the decoder also accepts the equivalent 25-character `+00:00` offset
//! form, so rows written with either zero-offset spelling read back the
//! same. Encoding and decoding are verified to be mutual inverses for every
//! well-formed date.

use vstd::prelude::*;

verus! {

/// A UTC calendar date and time of day, second precision.
///
/// Well-formedness ([`DateTime::wf`]) restricts years to `0..=9999`, so a
/// well-formed value always has the fixed-width four-digit year of its
/// text form.
#[derive(Clone, Copy, Debug, PartialEq, Eq, Structural)]
pub struct DateTime {
    pub year: u16,
    pub month: u8,
    pub day: u8,
    pub hour: u8,
    pub minute: u8,
    pub second: u8,
}

pub open spec fn is_leap_year(y: int) -> bool {
    y % 4 == 0 && (y % 100 != 0 || y % 400 == 0)
}

pub open spec fn days_in_month(y: int, m: int) -> int {
    if m == 2 {
        if is_leap_year(y) {
            29
        } else {
            28
        }
    } else if m == 4 || m == 6 || m == 9 || m == 11 {
        30
    } else {
        31
    }
}

impl DateTime {
    /// A valid Gregorian calendar date in years 0 through 9999, with a
    /// valid time of day.
    pub open spec fn wf(self) -> bool {
        &&& self.year <= 9999
        &&& 1 <= self.month <= 12
        &&& 1 <= self.day <= days_in_month(self.year as int, self.month as int)
        &&& self.hour <= 23
        &&& self.minute <= 59
        &&& self.second <= 59
    }
}

/// Chronological order on dates: lexicographic over the fields, from
/// year down to second.
pub open spec fn datetime_le(a: DateTime, b: DateTime) -> bool {
    if a.year != b.year {
        a.year < b.year
    } else if a.month != b.month {
        a.month < b.month
    } else if a.day != b.day {
        a.day < b.day
    } else if a.hour != b.hour {
        a.hour < b.hour
    } else if a.minute != b.minute {
        a.minute < b.minute
    } else {
        a.second <= b.second
    }
}

/// `datetime_le` is total: any two dates compare one way or the other.
pub proof fn lemma_datetime_le_total(a: DateTime, b: DateTime)
    ensures
        datetime_le(a, b) || datetime_le(b, a),
{
}

/// `datetime_le` is transitive.
pub proof fn lemma_datetime_le_trans(a: DateTime, b: DateTime, c: DateTime)
    requires
        datetime_le(a, b),
        datetime_le(b, c),
    ensures
        datetime_le(a, c),
{
}

/// Whether `a` comes strictly before `b` in chronological order.
pub fn datetime_lt(a: &DateTime, b: &DateTime) -> (r: bool)
    ensures
        r == !datetime_le(*b, *a),
{
    if a.year != b.year {
        a.year < b.year
    } else if a.month != b.month {
        a.month < b.month
    } else if a.day != b.day {
        a.day < b.day
    } else if a.hour != b.hour {
        a.hour < b.hour
    } else if a.minute != b.minute {
        a.minute < b.minute
    } else {
        a.second < b.second
    }
}

pub open spec fn digit_char(d: int) -> char {
    if d == 0 {
        '0'
    } else if d == 1 {
        '1'
    } else if d == 2 {
        '2'
    } else if d == 3 {
        '3'
    } else if d == 4 {
        '4'
    } else if d == 5 {
        '5'
    } else if d == 6 {
        '6'
    } else if d == 7 {
        '7'
    } else if d == 8 {
        '8'
    } else {
        '9'
    }
}

/// The value of a decimal digit character, or -1 for any other character.
pub open spec fn digit_val(c: char) -> int {
    if c == '0' {
        0
    } else if c == '1' {
        1
    } else if c == '2' {
        2
    } else if c == '3' {
        3
    } else if c == '4' {
        4
    } else if c == '5' {
        5
    } else if c == '6' {
        6
    } else if c == '7' {
        7
    } else if c == '8' {
        8
    } else if c == '9' {
        9
    } else {
        -1
    }
}

pub open spec fn is_digit(c: char) -> bool {
    digit_val(c) >= 0
}

/// The timestamp text of a date: `YYYY-MM-DDTHH:MM:SSZ`.
pub open spec fn encode_datetime(dt: DateTime) -> Seq<char> {
    seq![
        digit_char(dt.year as int / 1000),
        digit_char((dt.year as int / 100) % 10),
        digit_char((dt.year as int / 10) % 10),
        digit_char(dt.year as int % 10),
        '-',
        digit_char(dt.month as int / 10),
        digit_char(dt.month as int % 10),
        '-',
        digit_char(dt.day as int / 10),
        digit_char(dt.day as int % 10),
        'T',
        digit_char(dt.hour as int / 10),
        digit_char(dt.hour as int % 10),
        ':',
        digit_char(dt.minute as int / 10),
        digit_char(dt.minute as int % 10),
        ':',
        digit_char(dt.second as int / 10),
        digit_char(dt.second as int % 10),
        'Z',
    ]
}

/// The timestamp ends in `Z`, or in the equivalent zero offset `+00:00`.
pub open spec fn suffix_ok(s: Seq<char>) -> bool {
    ||| (s.len() == 20 && s[19] == 'Z')
    ||| (s.len() == 25 && s[19] == '+' && s[20] == '0' && s[21] == '0' && s[22] == ':' && s[23]
        == '0' && s[24] == '0')
}

/// Digits and separators stand at their fixed positions in the first
/// 19 characters: `YYYY-MM-DDTHH:MM:SS`.
pub open spec fn digits_ok(s: Seq<char>) -> bool {
    &&& s.len() >= 19
    &&& is_digit(s[0]) && is_digit(s[1]) && is_digit(s[2]) && is_digit(s[3])
    &&& s[4] == '-'
    &&& is_digit(s[5]) && is_digit(s[6])
    &&& s[7] == '-'
    &&& is_digit(s[8]) && is_digit(s[9])
    &&& s[10] == 'T'
    &&& is_digit(s[11]) && is_digit(s[12])
    &&& s[13] == ':'
    &&& is_digit(s[14]) && is_digit(s[15])
    &&& s[16] == ':'
    &&& is_digit(s[17]) && is_digit(s[18])
}

pub open spec fn two_val(s: Seq<char>, i: int) -> int {
    digit_val(s[i]) * 10 + digit_val(s[i + 1])
}

pub open spec fn four_val(s: Seq<char>, i: int) -> int {
    digit_val(s[i]) * 1000 + digit_val(s[i + 1]) * 100 + digit_val(s[i + 2]) * 10 + digit_val(
        s[i + 3],
    )
}

/// The date whose digits stand at the fixed positions of `s`.
pub open spec fn stamp_fields(s: Seq<char>) -> DateTime {
    DateTime {
        year: four_val(s, 0) as u16,
        month: two_val(s, 5) as u8,
        day: two_val(s, 8) as u8,
        hour: two_val(s, 11) as u8,
        minute: two_val(s, 14) as u8,
        second: two_val(s, 17) as u8,
    }
}

/// The date a timestamp text decodes to: `Some` exactly when the text has
/// the fixed shape, a zero-offset suffix, and names a well-formed date.
pub open spec fn decode_datetime(s: Seq<char>) -> Option<DateTime> {
    if digits_ok(s) && suffix_ok(s) && stamp_fields(s).wf() {
        Some(stamp_fields(s))
    } else {
        None
    }
}

pub proof fn lemma_digit_roundtrip(d: int)
    requires
        0 <= d <= 9,
    ensures
        digit_val(digit_char(d)) == d,
{
}

/// A number below 10000 is recovered from its four decimal digits.
proof fn lemma_four_digits(y: int)
    requires
        0 <= y <= 9999,
    ensures
        (y / 1000) * 1000 + ((y / 100) % 10) * 100 + ((y / 10) % 10) * 10 + y % 10 == y,
        0 <= y / 1000 <= 9,
        0 <= (y / 100) % 10 <= 9,
        0 <= (y / 10) % 10 <= 9,
        0 <= y % 10 <= 9,
{
    assert((y / 1000) * 1000 + ((y / 100) % 10) * 100 + ((y / 10) % 10) * 10 + y % 10 == y)
        by (nonlinear_arith)
        requires
            0 <= y <= 9999,
    ;
}

/// A number below 100 is recovered from its two decimal digits.
proof fn lemma_two_digits(v: int)
    requires
        0 <= v <= 99,
    ensures
        (v / 10) * 10 + v % 10 == v,
        0 <= v / 10 <= 9,
        0 <= v % 10 <= 9,
{
}

/// Decoding inverts encoding: every well-formed date round-trips through
/// its timestamp text without loss.
#[verifier::rlimit(60)]
pub proof fn lemma_datetime_roundtrip(dt: DateTime)
    requires
        dt.wf(),
    ensures
        decode_datetime(encode_datetime(dt)) == Some(dt),
{
    let s = encode_datetime(dt);
    lemma_four_digits(dt.year as int);
    lemma_two_digits(dt.month as int);
    lemma_two_digits(dt.day as int);
    lemma_two_digits(dt.hour as int);
    lemma_two_digits(dt.minute as int);
    lemma_two_digits(dt.second as int);
    lemma_digit_roundtrip(dt.year as int / 1000);
    lemma_digit_roundtrip((dt.year as int / 100) % 10);
    lemma_digit_roundtrip((dt.year as int / 10) % 10);
    lemma_digit_roundtrip(dt.year as int % 10);
    lemma_digit_roundtrip(dt.month as int / 10);
    lemma_digit_roundtrip(dt.month as int % 10);
    lemma_digit_roundtrip(dt.day as int / 10);
    lemma_digit_roundtrip(dt.day as int % 10);
    lemma_digit_roundtrip(dt.hour as int / 10);
    lemma_digit_roundtrip(dt.hour as int % 10);
    lemma_digit_roundtrip(dt.minute as int / 10);
    lemma_digit_roundtrip(dt.minute as int % 10);
    lemma_digit_roundtrip(dt.second as int / 10);
    lemma_digit_roundtrip(dt.second as int % 10);
    assert(four_val(s, 0) == dt.year as int);
    assert(two_val(s, 5) == dt.month as int);
    assert(two_val(s, 8) == dt.day as int);
    assert(two_val(s, 11) == dt.hour as int);
    assert(two_val(s, 14) == dt.minute as int);
    assert(two_val(s, 17) == dt.second as int);
    assert(digits_ok(s));
    assert(suffix_ok(s));
    assert(stamp_fields(s) == dt);
}

fn digit_str(d: u8) -> (r: &'static str)
    requires
        d < 10,
    ensures
        r@.len() == 1,
        r@[0] == digit_char(d as int),
{
    let s: &'static str = if d == 0 {
        "0"
    } else if d == 1 {
        "1"
    } else if d == 2 {
        "2"
    } else if d == 3 {
        "3"
    } else if d == 4 {
        "4"
    } else if d == 5 {
        "5"
    } else if d == 6 {
        "6"
    } else if d == 7 {
        "7"
    } else if d == 8 {
        "8"
    } else {
        "9"
    };
    proof {
        reveal_strlit("0");
        reveal_strlit("1");
        reveal_strlit("2");
        reveal_strlit("3");
        reveal_strlit("4");
        reveal_strlit("5");
        reveal_strlit("6");
        reveal_strlit("7");
        reveal_strlit("8");
        reveal_strlit("9");
    }
    s
}

/// Render a well-formed date as its timestamp text
/// `YYYY-MM-DDTHH:MM:SSZ`.
pub fn format_datetime(dt: &DateTime) -> (r: String)
    requires
        dt.wf(),
    ensures
        r@ == encode_datetime(*dt),
{
    let mut s = String::new();
    s.append(digit_str((dt.year / 1000) as u8));
    s.append(digit_str(((dt.year / 100) % 10) as u8));
    s.append(digit_str(((dt.year / 10) % 10) as u8));
    s.append(digit_str((dt.year % 10) as u8));
    s.append("-");
    s.append(digit_str(dt.month / 10));
    s.append(digit_str(dt.month % 10));
    s.append("-");
    s.append(digit_str(dt.day / 10));
    s.append(digit_str(dt.day % 10));
    s.append("T");
    s.append(digit_str(dt.hour / 10));
    s.append(digit_str(dt.hour % 10));
    s.append(":");
    s.append(digit_str(dt.minute / 10));
    s.append(digit_str(dt.minute % 10));
    s.append(":");
    s.append(digit_str(dt.second / 10));
    s.append(digit_str(dt.second % 10));
    s.append("Z");
    proof {
        reveal_strlit("-");
        reveal_strlit("T");
        reveal_strlit(":");
        reveal_strlit("Z");
        assert(s@ =~= encode_datetime(*dt));
    }
    s
}

fn digit_value(c: char) -> (r: Option<u8>)
    ensures
        match r {
            Some(d) => d < 10 && digit_val(c) == d as int,
            None => digit_val(c) == -1,
        },
{
    if c == '0' {
        Some(0)
    } else if c == '1' {
        Some(1)
    } else if c == '2' {
        Some(2)
    } else if c == '3' {
        Some(3)
    } else if c == '4' {
        Some(4)
    } else if c == '5' {
        Some(5)
    } else if c == '6' {
        Some(6)
    } else if c == '7' {
        Some(7)
    } else if c == '8' {
        Some(8)
    } else if c == '9' {
        Some(9)
    } else {
        None
    }
}

/// Decode a timestamp text back into a date. Returns `None` for any text
/// that is not a well-formed zero-offset timestamp.
#[verifier::rlimit(60)]
pub fn parse_datetime(s: &str) -> (r: Option<DateTime>)
    ensures
        r == decode_datetime(s@),
{
    let n = s.unicode_len();
    if n != 20 && n != 25 {
        return None;
    }
    if s.get_char(4) != '-' || s.get_char(7) != '-' || s.get_char(10) != 'T' || s.get_char(13)
        != ':' || s.get_char(16) != ':' {
        return None;
    }
    if n == 20 {
        if s.get_char(19) != 'Z' {
            return None;
        }
    } else {
        if s.get_char(19) != '+' || s.get_char(20) != '0' || s.get_char(21) != '0' || s.get_char(
            22,
        ) != ':' || s.get_char(23) != '0' || s.get_char(24) != '0' {
            return None;
        }
    }
    let d0 = match digit_value(s.get_char(0)) {
        Some(d) => d,
        None => { return None; },
    };
    let d1 = match digit_value(s.get_char(1)) {
        Some(d) => d,
        None => { return None; },
    };
    let d2 = match digit_value(s.get_char(2)) {
        Some(d) => d,
        None => { return None; },
    };
    let d3 = match digit_value(s.get_char(3)) {
        Some(d) => d,
        None => { return None; },
    };
    let d5 = match digit_value(s.get_char(5)) {
        Some(d) => d,
        None => { return None; },
    };
    let d6 = match digit_value(s.get_char(6)) {
        Some(d) => d,
        None => { return None; },
    };
    let d8 = match digit_value(s.get_char(8)) {
        Some(d) => d,
        None => { return None; },
    };
    let d9 = match digit_value(s.get_char(9)) {
        Some(d) => d,
        None => { return None; },
    };
    let d11 = match digit_value(s.get_char(11)) {
        Some(d) => d,
        None => { return None; },
    };
    let d12 = match digit_value(s.get_char(12)) {
        Some(d) => d,
        None => { return None; },
    };
    let d14 = match digit_value(s.get_char(14)) {
        Some(d) => d,
        None => { return None; },
    };
    let d15 = match digit_value(s.get_char(15)) {
        Some(d) => d,
        None => { return None; },
    };
    let d17 = match digit_value(s.get_char(17)) {
        Some(d) => d,
        None => { return None; },
    };
    let d18 = match digit_value(s.get_char(18)) {
        Some(d) => d,
        None => { return None; },
    };
    let year: u16 = d0 as u16 * 1000 + d1 as u16 * 100 + d2 as u16 * 10 + d3 as u16;
    let month: u8 = d5 * 10 + d6;
    let day: u8 = d8 * 10 + d9;
    let hour: u8 = d11 * 10 + d12;
    let minute: u8 = d14 * 10 + d15;
    let second: u8 = d17 * 10 + d18;
    if month < 1 || month > 12 {
        return None;
    }
    if day < 1 || day > days_in_month_exec(year, month) {
        return None;
    }
    if hour > 23 || minute > 59 || second > 59 {
        return None;
    }
    let dt = DateTime { year, month, day, hour, minute, second };
    proof {
        assert(digits_ok(s@));
        assert(suffix_ok(s@));
        assert(stamp_fields(s@) == dt);
    }
    Some(dt)
}

impl DateTime {
    /// Decide well-formedness at run time, for callers that must test it
    /// before relying on a contract that asks for it.
    pub fn check_wf(&self) -> (r: bool)
        ensures
            r == self.wf(),
    {
        self.year <= 9999 && 1 <= self.month && self.month <= 12 && 1 <= self.day && self.hour
            <= 23 && self.minute <= 59 && self.second <= 59 && self.day <= days_in_month_exec(
            self.year,
            self.month,
        )
    }
}

fn days_in_month_exec(y: u16, m: u8) -> (r: u8)
    requires
        1 <= m <= 12,
    ensures
        r as int == days_in_month(y as int, m as int),
{
    if m == 2 {
        if y % 4 == 0 && (y % 100 != 0 || y % 400 == 0) {
            29
        } else {
            28
        }
    } else if m == 4 || m == 6 || m == 9 || m == 11 {
        30
    } else {
        31
    }
}

} // verus!
