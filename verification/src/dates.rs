//! Calendar dates as plain values.
//!
//! A date is held as year, month and day numbers; validity (including
//! leap years) is stated here and checked by the parser.

use vstd::prelude::*;

use crate::text::chars_of;

verus! {

/// A calendar date, kept as plain numbers.
#[derive(Clone, Copy, Debug, PartialEq, Eq, Structural)]
pub struct Date {
    pub year: i32,
    pub month: u32,
    pub day: u32,
}

/// Gregorian leap-year rule.
pub open spec fn is_leap_year(y: int) -> bool {
    (y % 4 == 0 && y % 100 != 0) || y % 400 == 0
}

/// Days in a month of a given year.
pub open spec fn days_in_month(y: int, m: int) -> int {
    if m == 2 {
        if is_leap_year(y) {
            29
        } else {
            28
        }
    } else if m == 4 || m == 6 || m == 9 || m == 11 {
        30
    } else {
        31
    }
}

impl Date {
    /// The date names a real day of the Gregorian calendar.
    pub open spec fn wf(&self) -> bool {
        &&& 1 <= self.month <= 12
        &&& 1 <= self.day <= days_in_month(self.year as int, self.month as int)
    }
}

/// The numeric value of a digit character.
pub open spec fn digit_val(c: char) -> int {
    c as int - '0' as int
}

/// Whether `s` spells a calendar date as four year digits, two month
/// digits and two day digits separated by dashes, naming a real day.
pub open spec fn spec_date_format_ok(s: Seq<char>) -> bool {
    &&& s.len() == 10
    &&& (forall|i: int|
        0 <= i < 10 && i != 4 && i != 7 ==> crate::decimal::is_digit_char(s[i]))
    &&& s[4] == '-'
    &&& s[7] == '-'
}

/// The date spelled by a well-formatted date string.
pub open spec fn spec_date_of(s: Seq<char>) -> Date {
    Date {
        year: (digit_val(s[0]) * 1000 + digit_val(s[1]) * 100 + digit_val(s[2]) * 10 + digit_val(
            s[3],
        )) as i32,
        month: (digit_val(s[5]) * 10 + digit_val(s[6])) as u32,
        day: (digit_val(s[8]) * 10 + digit_val(s[9])) as u32,
    }
}

/// Parses a `YYYY-MM-DD` date string; returns the date exactly when the
/// string is well-formatted and names a real day.
pub fn parse_date(s: &str) -> (r: Option<Date>)
    ensures
        r == if spec_date_format_ok(s@) && spec_date_of(s@).wf() {
            Some(spec_date_of(s@))
        } else {
            None::<Date>
        },
{
    let v = chars_of(s);
    if v.len() != 10 {
        return None;
    }
    let mut i: usize = 0;
    while i < 10
        invariant
            i <= 10,
            v@ == s@,
            v@.len() == 10,
            forall|j: int|
                0 <= j < i && j != 4 && j != 7 ==> crate::decimal::is_digit_char(v@[j]),
        decreases 10 - i,
    {
        if i != 4 && i != 7 {
            let c = v[i];
            if !('0' <= c && c <= '9') {
                return None;
            }
        }
        i = i + 1;
    }
    if v[4] != '-' || v[7] != '-' {
        return None;
    }
    let year: i32 = digit_of(v[0]) as i32 * 1000 + digit_of(v[1]) as i32 * 100 + digit_of(
        v[2],
    ) as i32 * 10 + digit_of(v[3]) as i32;
    let month: u32 = digit_of(v[5]) as u32 * 10 + digit_of(v[6]) as u32;
    let day: u32 = digit_of(v[8]) as u32 * 10 + digit_of(v[9]) as u32;
    let d = Date { year, month, day };
    if month < 1 || month > 12 {
        return None;
    }
    if day < 1 || day > days_in_month_exec(year, month) {
        return None;
    }
    Some(d)
}

/// The numeric value of a digit character.
fn digit_of(c: char) -> (r: u32)
    requires
        crate::decimal::is_digit_char(c),
    ensures
        r == digit_val(c),
        r <= 9,
{
    (c as u32) - 48
}

/// Days in a month of a given year.
pub fn days_in_month_exec(y: i32, m: u32) -> (r: u32)
    requires
        y >= 0,
    ensures
        r == days_in_month(y as int, m as int),
{
    if m == 2 {
        if (y % 4 == 0 && y % 100 != 0) || y % 400 == 0 {
            29
        } else {
            28
        }
    } else if m == 4 || m == 6 || m == 9 || m == 11 {
        30
    } else {
        31
    }
}

} // verus!
