//! The manifest timestamp field: `%Y-%m-%dT%H:%M:%SZ`, UTC, second
//! resolution, for example `2024-01-01T00:00:00Z`.
//!
//! A valid timestamp is mapped to a total count of seconds on a
//! proleptic Gregorian time line, so that differences between two
//! timestamps are real second differences; the count is shifted by a
//! whole number of 400-year cycles to keep every value non-negative.

use vstd::prelude::*;

verus! {

/// The character is an ASCII decimal digit.
pub open spec fn is_digit(c: char) -> bool {
    '0' <= c && c <= '9'
}

/// Numeric value of an ASCII decimal digit.
pub open spec fn digit_val(c: char) -> int {
    c as int - 48
}

/// Year field of a timestamp (characters 0 to 3).
pub open spec fn ts_year(s: Seq<char>) -> int {
    digit_val(s[0]) * 1000 + digit_val(s[1]) * 100 + digit_val(s[2]) * 10 + digit_val(s[3])
}

/// Month field of a timestamp (characters 5 and 6).
pub open spec fn ts_month(s: Seq<char>) -> int {
    digit_val(s[5]) * 10 + digit_val(s[6])
}

/// Day field of a timestamp (characters 8 and 9).
pub open spec fn ts_day(s: Seq<char>) -> int {
    digit_val(s[8]) * 10 + digit_val(s[9])
}

/// Hour field of a timestamp (characters 11 and 12).
pub open spec fn ts_hour(s: Seq<char>) -> int {
    digit_val(s[11]) * 10 + digit_val(s[12])
}

/// Minute field of a timestamp (characters 14 and 15).
pub open spec fn ts_minute(s: Seq<char>) -> int {
    digit_val(s[14]) * 10 + digit_val(s[15])
}

/// Second field of a timestamp (characters 17 and 18).
pub open spec fn ts_second(s: Seq<char>) -> int {
    digit_val(s[17]) * 10 + digit_val(s[18])
}

/// Gregorian leap-year rule.
pub open spec fn is_leap_year(y: int) -> bool {
    (y % 4 == 0 && y % 100 != 0) || y % 400 == 0
}

/// Number of days in a month of a year.
pub open spec fn days_in_month(y: int, m: int) -> int {
    if m == 2 {
        if is_leap_year(y) {
            29
        } else {
            28
        }
    } else if m == 4 || m == 6 || m == 9 || m == 11 {
        30
    } else {
        31
    }
}

/// The sequence is a well-formed `%Y-%m-%dT%H:%M:%SZ` timestamp:
/// twenty characters, digits and separators in their places, and the
/// calendar fields within their ranges.
pub open spec fn valid_timestamp(s: Seq<char>) -> bool {
    &&& s.len() == 20
    &&& is_digit(s[0]) && is_digit(s[1]) && is_digit(s[2]) && is_digit(s[3])
    &&& s[4] == '-'
    &&& is_digit(s[5]) && is_digit(s[6])
    &&& s[7] == '-'
    &&& is_digit(s[8]) && is_digit(s[9])
    &&& s[10] == 'T'
    &&& is_digit(s[11]) && is_digit(s[12])
    &&& s[13] == ':'
    &&& is_digit(s[14]) && is_digit(s[15])
    &&& s[16] == ':'
    &&& is_digit(s[17]) && is_digit(s[18])
    &&& s[19] == 'Z'
    &&& 1 <= ts_month(s) <= 12
    &&& 1 <= ts_day(s) <= days_in_month(ts_year(s), ts_month(s))
    &&& ts_hour(s) <= 23
    &&& ts_minute(s) <= 59
    &&& ts_second(s) <= 59
}

/// Count of days of the date on a proleptic Gregorian time line,
/// shifted by 400 years so that every valid date yields a non-negative
/// count; the 400-year shift preserves all day differences because the
/// Gregorian calendar repeats exactly every 400 years.
pub open spec fn day_number(y: int, m: int, d: int) -> int {
    let yy = if m <= 2 {
        y + 399
    } else {
        y + 400
    };
    let era = yy / 400;
    let yoe = yy % 400;
    let mp = if m <= 2 {
        m + 9
    } else {
        m - 3
    };
    let doy = (153 * mp + 2) / 5 + d - 1;
    let doe = yoe * 365 + yoe / 4 - yoe / 100 + doy;
    era * 146097 + doe
}

/// Total seconds of a valid timestamp on the shifted time line.
/// Differences of two values are real second differences.
pub open spec fn ts_seconds(s: Seq<char>) -> int {
    day_number(ts_year(s), ts_month(s), ts_day(s)) * 86400 + ts_hour(s) * 3600 + ts_minute(s) * 60
        + ts_second(s)
}

/// An upper bound on every `ts_seconds` value; the count fits easily in
/// a `u64`.
pub proof fn lemma_ts_seconds_bounds(s: Seq<char>)
    requires
        valid_timestamp(s),
    ensures
        0 <= ts_seconds(s) < 0x60000000000,
{
}

/// Numeric value of a digit character, or `None` if it is no digit.
fn digit_of(c: char) -> (r: Option<u8>)
    ensures
        r is Some <==> is_digit(c),
        r is Some ==> r->0 as int == digit_val(c),
{
    let v = c as u32;
    if 48 <= v && v <= 57 {
        Some((v - 48) as u8)
    } else {
        None
    }
}

/// Parses a `%Y-%m-%dT%H:%M:%SZ` timestamp.
///
/// Returns the total-second count exactly when the text is a valid
/// timestamp, and `None` on any malformed text.
pub fn parse_timestamp(s: &str) -> (r: Option<u64>)
    ensures
        r is Some <==> valid_timestamp(s@),
        r is Some ==> r->0 as int == ts_seconds(s@),
{
    if s.unicode_len() != 20 {
        return None;
    }
    let d0 = digit_of(s.get_char(0));
    let d1 = digit_of(s.get_char(1));
    let d2 = digit_of(s.get_char(2));
    let d3 = digit_of(s.get_char(3));
    let d5 = digit_of(s.get_char(5));
    let d6 = digit_of(s.get_char(6));
    let d8 = digit_of(s.get_char(8));
    let d9 = digit_of(s.get_char(9));
    let d11 = digit_of(s.get_char(11));
    let d12 = digit_of(s.get_char(12));
    let d14 = digit_of(s.get_char(14));
    let d15 = digit_of(s.get_char(15));
    let d17 = digit_of(s.get_char(17));
    let d18 = digit_of(s.get_char(18));
    if s.get_char(4) != '-' || s.get_char(7) != '-' || s.get_char(10) != 'T' || s.get_char(13)
        != ':' || s.get_char(16) != ':' || s.get_char(19) != 'Z' {
        return None;
    }
    match (d0, d1, d2, d3, d5, d6, d8, d9, d11, d12, d14, d15, d17, d18) {
        (
            Some(y0),
            Some(y1),
            Some(y2),
            Some(y3),
            Some(m0),
            Some(m1),
            Some(a0),
            Some(a1),
            Some(h0),
            Some(h1),
            Some(i0),
            Some(i1),
            Some(s0),
            Some(s1),
        ) => {
            let year: u64 = y0 as u64 * 1000 + y1 as u64 * 100 + y2 as u64 * 10 + y3 as u64;
            let month: u64 = m0 as u64 * 10 + m1 as u64;
            let day: u64 = a0 as u64 * 10 + a1 as u64;
            let hour: u64 = h0 as u64 * 10 + h1 as u64;
            let minute: u64 = i0 as u64 * 10 + i1 as u64;
            let second: u64 = s0 as u64 * 10 + s1 as u64;
            if month < 1 || month > 12 {
                return None;
            }
            if day < 1 || day > days_in_month_exec(year, month) {
                return None;
            }
            if hour > 23 || minute > 59 || second > 59 {
                return None;
            }
            let yy: u64 = if month <= 2 {
                year + 399
            } else {
                year + 400
            };
            let era: u64 = yy / 400;
            let yoe: u64 = yy % 400;
            let mp: u64 = if month <= 2 {
                month + 9
            } else {
                month - 3
            };
            let doy: u64 = (153 * mp + 2) / 5 + day - 1;
            let doe: u64 = yoe * 365 + yoe / 4 - yoe / 100 + doy;
            let days: u64 = era * 146097 + doe;
            Some(days * 86400 + hour * 3600 + minute * 60 + second)
        },
        _ => None,
    }
}

/// Number of days in a month of a year, executable form.
fn days_in_month_exec(y: u64, m: u64) -> (r: u64)
    ensures
        r as int == days_in_month(y as int, m as int),
{
    if m == 2 {
        if (y % 4 == 0 && y % 100 != 0) || y % 400 == 0 {
            29
        } else {
            28
        }
    } else if m == 4 || m == 6 || m == 9 || m == 11 {
        30
    } else {
        31
    }
}

/// The two timestamps agree on their first seventeen characters: same
/// date, hour and minute.
pub open spec fn same_minute(a: Seq<char>, b: Seq<char>) -> bool {
    a.len() >= 17 && b.len() >= 17 && forall|i: int| 0 <= i < 17 ==> a[i] == b[i]
}

/// Tests whether two timestamp texts share their date-hour-minute
/// prefix, the first seventeen characters.
pub fn same_minute_prefix(a: &str, b: &str) -> (r: bool)
    ensures
        r == same_minute(a@, b@),
{
    if a.unicode_len() < 17 || b.unicode_len() < 17 {
        return false;
    }
    let mut i: usize = 0;
    while i < 17
        invariant
            0 <= i <= 17,
            a@.len() >= 17,
            b@.len() >= 17,
            forall|k: int| 0 <= k < i ==> a@[k] == b@[k],
        decreases 17 - i,
    {
        if a.get_char(i) != b.get_char(i) {
            return false;
        }
        i = i + 1;
    }
    true
}

/// Absolute difference of two second counts.
pub open spec fn seconds_delta(a: u64, b: u64) -> int {
    if a >= b {
        a - b
    } else {
        b - a
    }
}

/// Absolute difference of two second counts, executable form.
pub fn seconds_delta_exec(a: u64, b: u64) -> (r: u64)
    ensures
        r as int == seconds_delta(a, b),
{
    if a >= b {
        a - b
    } else {
        b - a
    }
}

} // verus!
