//! Calendar timestamps: the in-memory form of the date fields of a task,
//! their fixed text format (`YYYY-MM-DDTHH:MM:SS.mmmZ`, millisecond
//! precision, UTC), and the 14-digit stamp used in archive file names.

use vstd::prelude::*;
use chrono::{Datelike, Timelike};
use crate::digits::{digit_of, digit_val, is_digit, digit_str, digit_value};

verus! {

/// A calendar timestamp with millisecond precision, always UTC.
#[derive(Debug, Clone, Copy, PartialEq, Eq, Hash, Structural)]
pub struct Timestamp {
    pub year: u32,
    pub month: u32,
    pub day: u32,
    pub hour: u32,
    pub minute: u32,
    pub second: u32,
    pub millis: u32,
}

pub open spec fn is_leap_year(y: int) -> bool {
    y % 4 == 0 && (y % 100 != 0 || y % 400 == 0)
}

pub open spec fn days_in_month(y: int, m: int) -> int {
    if m == 2 {
        if is_leap_year(y) {
            29
        } else {
            28
        }
    } else if m == 4 || m == 6 || m == 9 || m == 11 {
        30
    } else {
        31
    }
}

impl Timestamp {
    /// A real proleptic-Gregorian calendar date and time of day, within the
    /// four-digit-year range the text format can carry.
    pub open spec fn valid(self) -> bool {
        &&& self.year <= 9999
        &&& 1 <= self.month <= 12
        &&& 1 <= self.day <= days_in_month(self.year as int, self.month as int)
        &&& self.hour < 24
        &&& self.minute < 60
        &&& self.second < 60
        &&& self.millis < 1000
    }
}

impl Timestamp {
    /// Whether this is a real calendar date and time of day.
    pub fn check_valid(&self) -> (r: bool)
        ensures
            r == self.valid(),
    {
        self.year <= 9999 && 1 <= self.month && self.month <= 12 && 1 <= self.day && self.day
            <= month_days(self.year, self.month) && self.hour < 24 && self.minute < 60
            && self.second < 60 && self.millis < 1000
    }
}

pub fn leap_year(y: u32) -> (r: bool)
    ensures
        r == is_leap_year(y as int),
{
    y % 4 == 0 && (y % 100 != 0 || y % 400 == 0)
}

pub fn month_days(y: u32, m: u32) -> (r: u32)
    requires
        1 <= m <= 12,
    ensures
        r == days_in_month(y as int, m as int),
{
    if m == 2 {
        if leap_year(y) {
            29
        } else {
            28
        }
    } else if m == 4 || m == 6 || m == 9 || m == 11 {
        30
    } else {
        31
    }
}

/// Two decimal digits, zero-padded (meaningful for `0 <= n < 100`).
pub open spec fn pad2(n: int) -> Seq<char> {
    seq![digit_of(n / 10), digit_of(n % 10)]
}

/// Three decimal digits, zero-padded (meaningful for `0 <= n < 1000`).
pub open spec fn pad3(n: int) -> Seq<char> {
    seq![digit_of(n / 100)] + pad2(n % 100)
}

/// Four decimal digits, zero-padded (meaningful for `0 <= n < 10000`).
pub open spec fn pad4(n: int) -> Seq<char> {
    pad2(n / 100) + pad2(n % 100)
}

/// The 24-character text form of a timestamp.
pub open spec fn ts_chars(t: Timestamp) -> Seq<char> {
    pad4(t.year as int) + seq!['-'] + pad2(t.month as int) + seq!['-'] + pad2(t.day as int)
        + seq!['T'] + pad2(t.hour as int) + seq![':'] + pad2(t.minute as int) + seq![':']
        + pad2(t.second as int) + seq!['.'] + pad3(t.millis as int) + seq!['Z']
}

/// The timestamp read off a 24-character text (meaningful when
/// `ts_shape_ok` holds of the text).
pub open spec fn ts_of_chars(s: Seq<char>) -> Timestamp {
    Timestamp {
        year: (digit_val(s[0]) * 1000 + digit_val(s[1]) * 100 + digit_val(s[2]) * 10 + digit_val(
            s[3],
        )) as u32,
        month: (digit_val(s[5]) * 10 + digit_val(s[6])) as u32,
        day: (digit_val(s[8]) * 10 + digit_val(s[9])) as u32,
        hour: (digit_val(s[11]) * 10 + digit_val(s[12])) as u32,
        minute: (digit_val(s[14]) * 10 + digit_val(s[15])) as u32,
        second: (digit_val(s[17]) * 10 + digit_val(s[18])) as u32,
        millis: (digit_val(s[20]) * 100 + digit_val(s[21]) * 10 + digit_val(s[22])) as u32,
    }
}

pub open spec fn ts_shape_ok(s: Seq<char>) -> bool {
    &&& s.len() == 24
    &&& is_digit(s[0]) && is_digit(s[1]) && is_digit(s[2]) && is_digit(s[3])
    &&& s[4] == '-'
    &&& is_digit(s[5]) && is_digit(s[6])
    &&& s[7] == '-'
    &&& is_digit(s[8]) && is_digit(s[9])
    &&& s[10] == 'T'
    &&& is_digit(s[11]) && is_digit(s[12])
    &&& s[13] == ':'
    &&& is_digit(s[14]) && is_digit(s[15])
    &&& s[16] == ':'
    &&& is_digit(s[17]) && is_digit(s[18])
    &&& s[19] == '.'
    &&& is_digit(s[20]) && is_digit(s[21]) && is_digit(s[22])
    &&& s[23] == 'Z'
}

/// What parsing a timestamp field yields: the fixed 24-character shape,
/// carrying a real calendar date.
pub open spec fn parse_ts_spec(s: Seq<char>) -> Option<Timestamp> {
    if ts_shape_ok(s) && ts_of_chars(s).valid() {
        Some(ts_of_chars(s))
    } else {
        None
    }
}

/// Appends two zero-padded decimal digits.
fn push_pad2(s: &mut String, n: u32)
    requires
        n < 100,
    ensures
        final(s)@ == old(s)@ + pad2(n as int),
{
    s.append(digit_str(n / 10));
    s.append(digit_str(n % 10));
    proof {
        assert(final(s)@ =~= old(s)@ + pad2(n as int));
    }
}

/// Formats a timestamp as its fixed 24-character text.
pub fn format_timestamp(t: &Timestamp) -> (r: String)
    requires
        t.valid(),
    ensures
        r@ == ts_chars(*t),
{
    proof {
        reveal_strlit("-");
        reveal_strlit("T");
        reveal_strlit(":");
        reveal_strlit(".");
        reveal_strlit("Z");
    }
    let mut s = String::new();
    push_pad2(&mut s, t.year / 100);
    push_pad2(&mut s, t.year % 100);
    s.append("-");
    push_pad2(&mut s, t.month);
    s.append("-");
    push_pad2(&mut s, t.day);
    s.append("T");
    push_pad2(&mut s, t.hour);
    s.append(":");
    push_pad2(&mut s, t.minute);
    s.append(":");
    push_pad2(&mut s, t.second);
    s.append(".");
    s.append(digit_str(t.millis / 100));
    push_pad2(&mut s, t.millis % 100);
    s.append("Z");
    proof {
        assert(s@ =~= ts_chars(*t));
    }
    s
}

/// Parses the fixed 24-character timestamp text; `None` on any other text
/// and on an impossible calendar date.
pub fn parse_timestamp(s: &str) -> (r: Option<Timestamp>)
    ensures
        r == parse_ts_spec(s@),
{
    if s.unicode_len() != 24 {
        return None;
    }
    if !(s.get_char(4) == '-' && s.get_char(7) == '-' && s.get_char(10) == 'T' && s.get_char(13)
        == ':' && s.get_char(16) == ':' && s.get_char(19) == '.' && s.get_char(23) == 'Z') {
        return None;
    }
    let d0 = digit_value(s.get_char(0));
    let d1 = digit_value(s.get_char(1));
    let d2 = digit_value(s.get_char(2));
    let d3 = digit_value(s.get_char(3));
    let d5 = digit_value(s.get_char(5));
    let d6 = digit_value(s.get_char(6));
    let d8 = digit_value(s.get_char(8));
    let d9 = digit_value(s.get_char(9));
    let d11 = digit_value(s.get_char(11));
    let d12 = digit_value(s.get_char(12));
    let d14 = digit_value(s.get_char(14));
    let d15 = digit_value(s.get_char(15));
    let d17 = digit_value(s.get_char(17));
    let d18 = digit_value(s.get_char(18));
    let d20 = digit_value(s.get_char(20));
    let d21 = digit_value(s.get_char(21));
    let d22 = digit_value(s.get_char(22));
    if d0 > 9 || d1 > 9 || d2 > 9 || d3 > 9 || d5 > 9 || d6 > 9 || d8 > 9 || d9 > 9 || d11 > 9
        || d12 > 9 || d14 > 9 || d15 > 9 || d17 > 9 || d18 > 9 || d20 > 9 || d21 > 9 || d22 > 9 {
        return None;
    }
    let t = Timestamp {
        year: d0 * 1000 + d1 * 100 + d2 * 10 + d3,
        month: d5 * 10 + d6,
        day: d8 * 10 + d9,
        hour: d11 * 10 + d12,
        minute: d14 * 10 + d15,
        second: d17 * 10 + d18,
        millis: d20 * 100 + d21 * 10 + d22,
    };
    if t.month < 1 || t.month > 12 {
        return None;
    }
    if t.day < 1 || t.day > month_days(t.year, t.month) {
        return None;
    }
    if t.hour >= 24 || t.minute >= 60 || t.second >= 60 {
        return None;
    }
    Some(t)
}

/// The flat character list behind the concatenation in `ts_chars`.
pub open spec fn ts_chars_flat(t: Timestamp) -> Seq<char> {
    seq![
        digit_of(t.year as int / 100 / 10),
        digit_of(t.year as int / 100 % 10),
        digit_of(t.year as int % 100 / 10),
        digit_of(t.year as int % 100 % 10),
        '-',
        digit_of(t.month as int / 10),
        digit_of(t.month as int % 10),
        '-',
        digit_of(t.day as int / 10),
        digit_of(t.day as int % 10),
        'T',
        digit_of(t.hour as int / 10),
        digit_of(t.hour as int % 10),
        ':',
        digit_of(t.minute as int / 10),
        digit_of(t.minute as int % 10),
        ':',
        digit_of(t.second as int / 10),
        digit_of(t.second as int % 10),
        '.',
        digit_of(t.millis as int / 100),
        digit_of(t.millis as int % 100 / 10),
        digit_of(t.millis as int % 100 % 10),
        'Z',
    ]
}

#[verifier::rlimit(100)]
pub proof fn lemma_ts_chars_flat(t: Timestamp)
    ensures
        ts_chars(t) == ts_chars_flat(t),
{
    assert(ts_chars(t) =~= ts_chars_flat(t));
}

/// A two-digit pair reads back as its value.
proof fn lemma_unpad2(n: int)
    requires
        0 <= n < 100,
    ensures
        digit_val(digit_of(n / 10)) * 10 + digit_val(digit_of(n % 10)) == n,
{
    vstd::arithmetic::div_mod::lemma_fundamental_div_mod(n, 10);
    assert(digit_val(digit_of(n / 10)) == n / 10);
    assert(digit_val(digit_of(n % 10)) == n % 10);
}

/// Text and value of a valid timestamp round-trip exactly.
#[verifier::rlimit(100)]
pub proof fn lemma_timestamp_round_trip(t: Timestamp)
    requires
        t.valid(),
    ensures
        parse_ts_spec(ts_chars(t)) == Some(t),
{
    lemma_ts_chars_flat(t);
    let s = ts_chars(t);
    let y = t.year as int;
    assert(ts_shape_ok(s));
    let u = ts_of_chars(s);
    assert(u.year == y) by {
        assert(0 <= y / 100 < 100 && 0 <= y % 100 < 100) by {
            vstd::arithmetic::div_mod::lemma_fundamental_div_mod(y, 100);
        }
        lemma_unpad2(y / 100);
        lemma_unpad2(y % 100);
        vstd::arithmetic::div_mod::lemma_fundamental_div_mod(y, 100);
    }
    assert(u.month == t.month) by {
        lemma_unpad2(t.month as int);
    }
    assert(u.day == t.day) by {
        lemma_unpad2(t.day as int);
    }
    assert(u.hour == t.hour) by {
        lemma_unpad2(t.hour as int);
    }
    assert(u.minute == t.minute) by {
        lemma_unpad2(t.minute as int);
    }
    assert(u.second == t.second) by {
        lemma_unpad2(t.second as int);
    }
    assert(u.millis == t.millis) by {
        let m = t.millis as int;
        assert(0 <= m / 100 <= 9 && 0 <= m % 100 < 100) by {
            vstd::arithmetic::div_mod::lemma_fundamental_div_mod(m, 100);
        }
        assert(digit_val(digit_of(m / 100)) == m / 100);
        lemma_unpad2(m % 100);
        vstd::arithmetic::div_mod::lemma_fundamental_div_mod(m, 100);
    }
    assert(u == t);
}

/// The 14-digit file-name stamp for a timestamp: year, month, day, then the
/// six-digit sub-second fraction (milliseconds, microsecond-padded).
pub open spec fn stamp14_chars(t: Timestamp) -> Seq<char> {
    pad4(t.year as int) + pad2(t.month as int) + pad2(t.day as int) + pad3(t.millis as int) + seq![
        '0',
        '0',
        '0',
    ]
}

pub fn format_stamp14(t: &Timestamp) -> (r: String)
    requires
        t.valid(),
    ensures
        r@ == stamp14_chars(*t),
{
    let mut s = String::new();
    push_pad2(&mut s, t.year / 100);
    push_pad2(&mut s, t.year % 100);
    push_pad2(&mut s, t.month);
    push_pad2(&mut s, t.day);
    s.append(digit_str(t.millis / 100));
    push_pad2(&mut s, t.millis % 100);
    proof {
        reveal_strlit("000");
    }
    s.append("000");
    proof {
        assert(s@ =~= stamp14_chars(*t));
    }
    s
}

/// The file-name stamp of a valid timestamp is 14 digits, and never the
/// root sentinel: the month's digit pair is at least "01".
pub proof fn lemma_stamp14_wf(t: Timestamp)
    requires
        t.valid(),
    ensures
        stamp14_chars(t).len() == 14,
        crate::digits::all_digits(stamp14_chars(t)),
        stamp14_chars(t) != "00000000000000"@,
{
    let s = stamp14_chars(t);
    let y = t.year as int;
    assert(s =~= seq![
        digit_of(y / 100 / 10),
        digit_of(y / 100 % 10),
        digit_of(y % 100 / 10),
        digit_of(y % 100 % 10),
        digit_of(t.month as int / 10),
        digit_of(t.month as int % 10),
        digit_of(t.day as int / 10),
        digit_of(t.day as int % 10),
        digit_of(t.millis as int / 100),
        digit_of(t.millis as int % 100 / 10),
        digit_of(t.millis as int % 100 % 10),
        '0',
        '0',
        '0',
    ]);
    assert forall|i: int| 0 <= i < s.len() implies is_digit(#[trigger] s[i]) by {
        assert(is_digit('0'));
    }
    reveal_strlit("00000000000000");
    if t.month >= 10 {
        assert(s[4] != '0');
    } else {
        assert(digit_val(s[5]) == t.month as int);
        assert(s[5] != '0');
    }
}

/// Relies on `chrono::Utc::now` and the `Datelike` / `Timelike` accessors:
/// the month is 1 to 12, the day of month 1 to 31, the time of day in
/// range, and the nanosecond below two billion (values above one billion
/// encode a leap second).
#[verifier::external_body]
fn now_parts() -> (r: (i32, u32, u32, u32, u32, u32, u32))
    ensures
        1 <= r.1 <= 12,
        1 <= r.2 <= 31,
        r.3 < 24,
        r.4 < 60,
        r.5 < 60,
        r.6 < 2_000_000_000,
{
    let now = chrono::Utc::now();
    (
        now.year(),
        now.month(),
        now.day(),
        now.hour(),
        now.minute(),
        now.second(),
        now.nanosecond(),
    )
}

/// The current wall-clock time as a valid timestamp.  A clock outside the
/// four-digit-year range is clamped to it; a leap second is reported as the
/// last millisecond of its minute.
pub fn now_timestamp() -> (r: Timestamp)
    ensures
        r.valid(),
{
    let (y, mo, d, h, mi, s, ns) = now_parts();
    let year: u32 = if y < 0 {
        0
    } else if y > 9999 {
        9999
    } else {
        y as u32
    };
    let limit = month_days(year, mo);
    let day: u32 = if d > limit {
        limit
    } else {
        d
    };
    let ms: u32 = ns / 1_000_000;
    let millis: u32 = if ms > 999 {
        999
    } else {
        ms
    };
    Timestamp { year, month: mo, day, hour: h, minute: mi, second: s, millis }
}

} // verus!
