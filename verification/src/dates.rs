//! Calendar dates and the strict `YYYY-MM-DD` file-stem prefix.
//!
//! A file whose stem begins with a well-formed calendar date is a post; the
//! prefix must be exactly four digits, a dash, two digits, a dash and two
//! digits, and must denote a real date of the proleptic Gregorian calendar.

use vstd::prelude::*;

verus! {

/// A calendar date.  Valid dates satisfy [`Date::wf`].
#[derive(Clone, Copy, PartialEq, Eq, Structural, Debug)]
pub struct Date {
    pub year: u16,
    pub month: u8,
    pub day: u8,
}

/// Gregorian leap years: divisible by four, except centuries off the
/// four-hundred cycle.
pub open spec fn is_leap_year(y: int) -> bool {
    y % 4 == 0 && (y % 100 != 0 || y % 400 == 0)
}

/// The number of days of month `m` of year `y`.
pub open spec fn days_in_month(y: int, m: int) -> int {
    if m == 2 {
        if is_leap_year(y) {
            29
        } else {
            28
        }
    } else if m == 4 || m == 6 || m == 9 || m == 11 {
        30
    } else {
        31
    }
}

impl Date {
    /// The date denotes a real day of the calendar.
    pub open spec fn wf(self) -> bool {
        &&& 1 <= self.month <= 12
        &&& 1 <= self.day <= days_in_month(self.year as int, self.month as int)
    }
}

/// An ASCII decimal digit.
pub open spec fn is_digit(c: char) -> bool {
    '0' <= c && c <= '9'
}

/// The value of an ASCII decimal digit.
pub open spec fn digit_val(c: char) -> int {
    c as int - '0' as int
}

/// `s` starts with the ten characters of a strict `YYYY-MM-DD` pattern
/// (whatever follows them is ignored).
pub open spec fn has_date_shape(s: Seq<char>) -> bool {
    &&& s.len() >= 10
    &&& is_digit(s[0]) && is_digit(s[1]) && is_digit(s[2]) && is_digit(s[3])
    &&& s[4] == '-'
    &&& is_digit(s[5]) && is_digit(s[6])
    &&& s[7] == '-'
    &&& is_digit(s[8]) && is_digit(s[9])
}

/// The date written in the first ten characters of `s`; meaningful only when
/// `has_date_shape(s)` holds.
pub open spec fn shaped_date(s: Seq<char>) -> Date {
    Date {
        year: (digit_val(s[0]) * 1000 + digit_val(s[1]) * 100 + digit_val(s[2]) * 10 + digit_val(
            s[3],
        )) as u16,
        month: (digit_val(s[5]) * 10 + digit_val(s[6])) as u8,
        day: (digit_val(s[8]) * 10 + digit_val(s[9])) as u8,
    }
}

/// The date prefix of a file stem: the leading strict `YYYY-MM-DD` pattern,
/// provided it denotes a real calendar date.
pub open spec fn spec_date_prefix(s: Seq<char>) -> Option<Date> {
    if has_date_shape(s) && shaped_date(s).wf() {
        Some(shaped_date(s))
    } else {
        None
    }
}

/// Reads one ASCII digit.
fn digit(c: char) -> (r: Option<u16>)
    ensures
        r is Some <==> is_digit(c),
        r matches Some(v) ==> v == digit_val(c) && v <= 9,
{
    if '0' <= c && c <= '9' {
        Some((c as u32 - '0' as u32) as u16)
    } else {
        None
    }
}

/// Parses the strict `YYYY-MM-DD` prefix of a file stem.
pub fn date_prefix(stem: &[char]) -> (r: Option<Date>)
    ensures
        r == spec_date_prefix(stem@),
{
    if stem.len() < 10 {
        return None;
    }
    if !(stem[4] == '-' && stem[7] == '-') {
        return None;
    }
    let (y, m, d) = match (
        digit(stem[0]),
        digit(stem[1]),
        digit(stem[2]),
        digit(stem[3]),
        digit(stem[5]),
        digit(stem[6]),
        digit(stem[8]),
        digit(stem[9]),
    ) {
        (
            Some(y0),
            Some(y1),
            Some(y2),
            Some(y3),
            Some(m0),
            Some(m1),
            Some(d0),
            Some(d1),
        ) => (
            y0 * 1000 + y1 * 100 + y2 * 10 + y3,
            (m0 * 10 + m1) as u8,
            (d0 * 10 + d1) as u8,
        ),
        _ => {
            return None;
        },
    };
    let date = Date { year: y, month: m, day: d };
    if !(1 <= m && m <= 12) {
        return None;
    }
    let dim = days_in_month_exec(y, m);
    if !(1 <= d && d <= dim) {
        return None;
    }
    Some(date)
}

/// The number of days of month `m` of year `y`.
fn days_in_month_exec(y: u16, m: u8) -> (r: u8)
    ensures
        r == days_in_month(y as int, m as int),
{
    if m == 2 {
        if y % 4 == 0 && (y % 100 != 0 || y % 400 == 0) {
            29
        } else {
            28
        }
    } else if m == 4 || m == 6 || m == 9 || m == 11 {
        30
    } else {
        31
    }
}

} // verus!
