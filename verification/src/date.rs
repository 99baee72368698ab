//! Calendar dates as plain year/month/day numbers, with parsing of the fixed
//! `YYYY-MM-DD` layout used by upload rows.

use vstd::prelude::*;

verus! {

/// A calendar date held as plain year, month and day numbers.
#[derive(Clone, Copy, Debug, PartialEq, Eq, Structural, Hash)]
pub struct Date {
    pub year: u16,
    pub month: u8,
    pub day: u8,
}

pub open spec fn spec_is_leap_year(y: int) -> bool {
    (y % 4 == 0 && y % 100 != 0) || y % 400 == 0
}

pub open spec fn spec_days_in_month(y: int, m: int) -> int {
    if m == 2 {
        if spec_is_leap_year(y) {
            29
        } else {
            28
        }
    } else if m == 4 || m == 6 || m == 9 || m == 11 {
        30
    } else {
        31
    }
}

impl Date {
    pub open spec fn valid(self) -> bool {
        &&& self.year <= 9999
        &&& 1 <= self.month <= 12
        &&& 1 <= self.day <= spec_days_in_month(self.year as int, self.month as int)
    }

    /// Numeric key that orders valid dates chronologically.
    pub open spec fn spec_key(self) -> int {
        self.year * 10000 + self.month * 100 + self.day
    }

    pub fn key(self) -> (k: u32)
        requires
            self.valid(),
        ensures
            k == self.spec_key(),
    {
        (self.year as u32) * 10000 + (self.month as u32) * 100 + (self.day as u32)
    }
}

/// Two valid dates with the same key are the same date.
pub proof fn lemma_key_injective(a: Date, b: Date)
    requires
        a.valid(),
        b.valid(),
        a.spec_key() == b.spec_key(),
    ensures
        a == b,
{
    assert(1 <= a.day <= 31 && 1 <= b.day <= 31);
    assert(a.year == b.year);
    assert(a.month == b.month);
    assert(a.day == b.day);
}

pub open spec fn is_digit(b: u8) -> bool {
    48 <= b <= 57
}

pub open spec fn digit_val(b: u8) -> int {
    b - 48
}

/// What a field must look like to be accepted as a date: exactly ten bytes in
/// the shape `YYYY-MM-DD`, all positions digits, and the three numbers a valid
/// calendar date.
pub open spec fn spec_parse_date(s: Seq<u8>) -> Option<Date> {
    if s.len() == 10 && s[4] == 45u8 && s[7] == 45u8 && is_digit(s[0]) && is_digit(s[1])
        && is_digit(s[2]) && is_digit(s[3]) && is_digit(s[5]) && is_digit(s[6]) && is_digit(s[8])
        && is_digit(s[9]) {
        let y = digit_val(s[0]) * 1000 + digit_val(s[1]) * 100 + digit_val(s[2]) * 10 + digit_val(
            s[3],
        );
        let m = digit_val(s[5]) * 10 + digit_val(s[6]);
        let d = digit_val(s[8]) * 10 + digit_val(s[9]);
        let date = Date { year: y as u16, month: m as u8, day: d as u8 };
        if date.valid() {
            Some(date)
        } else {
            None
        }
    } else {
        None
    }
}

fn days_in_month(year: u16, month: u8) -> (n: u8)
    requires
        1 <= month <= 12,
    ensures
        n == spec_days_in_month(year as int, month as int),
{
    if month == 2 {
        if (year % 4 == 0 && year % 100 != 0) || year % 400 == 0 {
            29
        } else {
            28
        }
    } else if month == 4 || month == 6 || month == 9 || month == 11 {
        30
    } else {
        31
    }
}

pub fn parse_date(s: &Vec<u8>) -> (r: Option<Date>)
    ensures
        r == spec_parse_date(s@),
{
    if s.len() != 10 {
        return None;
    }
    if s[4] != 45u8 || s[7] != 45u8 {
        return None;
    }
    let mut i: usize = 0;
    while i < 10
        invariant
            i <= 10,
            s@.len() == 10,
            forall|j: int| 0 <= j < i && j != 4 && j != 7 ==> is_digit(s@[j]),
        decreases 10 - i,
    {
        if i != 4 && i != 7 {
            let b = s[i];
            if b < 48u8 || b > 57u8 {
                return None;
            }
        }
        i += 1;
    }
    let y: u16 = (s[0] - 48) as u16 * 1000 + (s[1] - 48) as u16 * 100 + (s[2] - 48) as u16 * 10 + (
    s[3] - 48) as u16;
    let m: u8 = (s[5] - 48) * 10 + (s[6] - 48);
    let d: u8 = (s[8] - 48) * 10 + (s[9] - 48);
    if m < 1 || m > 12 {
        return None;
    }
    if d < 1 || d > days_in_month(y, m) {
        return None;
    }
    Some(Date { year: y, month: m, day: d })
}

} // verus!
