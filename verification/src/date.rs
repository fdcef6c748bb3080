//! Calendar dates as plain values: validity, ordering, and parsing of the
//! `YYYY-MM-DD` form used by document front matter.

use vstd::prelude::*;

verus! {

/// A calendar date. Fields are plain integers so that contracts can speak
/// of them directly; [`Date::spec_valid`] says when they name a real day.
#[derive(Clone, Copy, PartialEq, Eq, Structural, Debug)]
pub struct Date {
    pub year: u16,
    pub month: u8,
    pub day: u8,
}

impl Date {
    /// Whether `year` is a leap year of the proleptic Gregorian calendar.
    pub open spec fn spec_leap_year(year: int) -> bool {
        (year % 4 == 0 && year % 100 != 0) || year % 400 == 0
    }

    /// The number of days of `month` in `year`; 0 for a month out of range.
    pub open spec fn spec_days_in_month(year: int, month: int) -> int {
        if month == 1 || month == 3 || month == 5 || month == 7 || month == 8 || month == 10
            || month == 12 {
            31
        } else if month == 4 || month == 6 || month == 9 || month == 11 {
            30
        } else if month == 2 {
            if Self::spec_leap_year(year) {
                29
            } else {
                28
            }
        } else {
            0
        }
    }

    /// Whether the fields name a day of the calendar.
    pub open spec fn spec_valid(self) -> bool {
        1 <= self.month <= 12 && 1 <= self.day <= Self::spec_days_in_month(
            self.year as int,
            self.month as int,
        )
    }

    /// Builds a date after checking that it names a real day.
    pub fn new(year: u16, month: u8, day: u8) -> (r: Option<Date>)
        ensures
            match r {
                Some(d) => d == (Date { year, month, day }) && d.spec_valid(),
                None => !(Date { year, month, day }).spec_valid(),
            },
    {
        let d = Date { year, month, day };
        if d.valid() {
            Some(d)
        } else {
            None
        }
    }

    /// Checks that the fields name a day of the calendar.
    pub fn valid(&self) -> (r: bool)
        ensures
            r == self.spec_valid(),
    {
        let leap = (self.year % 4 == 0 && self.year % 100 != 0) || self.year % 400 == 0;
        let days: u8 = match self.month {
            1 | 3 | 5 | 7 | 8 | 10 | 12 => 31,
            4 | 6 | 9 | 11 => 30,
            2 => if leap {
                29
            } else {
                28
            },
            _ => 0,
        };
        1 <= self.month && self.month <= 12 && 1 <= self.day && self.day <= days
    }

    /// Order on dates: by year, then month, then day.
    pub open spec fn spec_le(self, other: Date) -> bool {
        if self.year != other.year {
            self.year < other.year
        } else if self.month != other.month {
            self.month < other.month
        } else {
            self.day <= other.day
        }
    }

    /// Compares two dates, pinned to [`Date::spec_le`].
    pub fn le(&self, other: &Date) -> (r: bool)
        ensures
            r == self.spec_le(*other),
    {
        if self.year != other.year {
            self.year < other.year
        } else if self.month != other.month {
            self.month < other.month
        } else {
            self.day <= other.day
        }
    }
}

/// The value of a decimal digit, or `None` for any other character.
pub open spec fn spec_digit(c: char) -> Option<int> {
    if c == '0' {
        Some(0)
    } else if c == '1' {
        Some(1)
    } else if c == '2' {
        Some(2)
    } else if c == '3' {
        Some(3)
    } else if c == '4' {
        Some(4)
    } else if c == '5' {
        Some(5)
    } else if c == '6' {
        Some(6)
    } else if c == '7' {
        Some(7)
    } else if c == '8' {
        Some(8)
    } else if c == '9' {
        Some(9)
    } else {
        None
    }
}

/// Executable twin of [`spec_digit`].
pub fn digit_of(c: char) -> (r: Option<u8>)
    ensures
        match r {
            Some(d) => spec_digit(c) == Some(d as int) && d <= 9,
            None => spec_digit(c) is None,
        },
{
    match c {
        '0' => Some(0),
        '1' => Some(1),
        '2' => Some(2),
        '3' => Some(3),
        '4' => Some(4),
        '5' => Some(5),
        '6' => Some(6),
        '7' => Some(7),
        '8' => Some(8),
        '9' => Some(9),
        _ => None,
    }
}

/// What a `YYYY-MM-DD` text denotes: a valid date written with four, two and
/// two decimal digits separated by hyphens, or nothing.
pub open spec fn spec_parse_date(s: Seq<char>) -> Option<Date> {
    if s.len() == 10 && s[4] == '-' && s[7] == '-' && spec_digit(s[0]) is Some && spec_digit(
        s[1],
    ) is Some && spec_digit(s[2]) is Some && spec_digit(s[3]) is Some && spec_digit(
        s[5],
    ) is Some && spec_digit(s[6]) is Some && spec_digit(s[8]) is Some && spec_digit(
        s[9],
    ) is Some {
        let year = spec_digit(s[0])->0 * 1000 + spec_digit(s[1])->0 * 100 + spec_digit(s[2])->0
            * 10 + spec_digit(s[3])->0;
        let month = spec_digit(s[5])->0 * 10 + spec_digit(s[6])->0;
        let day = spec_digit(s[8])->0 * 10 + spec_digit(s[9])->0;
        let d = Date { year: year as u16, month: month as u8, day: day as u8 };
        if d.spec_valid() {
            Some(d)
        } else {
            None
        }
    } else {
        None
    }
}

/// Parses a `YYYY-MM-DD` text, pinned to [`spec_parse_date`].
pub fn parse_date(s: &str) -> (r: Option<Date>)
    ensures
        r == spec_parse_date(s@),
{
    if s.unicode_len() != 10 {
        return None;
    }
    if s.get_char(4) != '-' || s.get_char(7) != '-' {
        return None;
    }
    let d0 = digit_of(s.get_char(0));
    let d1 = digit_of(s.get_char(1));
    let d2 = digit_of(s.get_char(2));
    let d3 = digit_of(s.get_char(3));
    let d5 = digit_of(s.get_char(5));
    let d6 = digit_of(s.get_char(6));
    let d8 = digit_of(s.get_char(8));
    let d9 = digit_of(s.get_char(9));
    match (d0, d1, d2, d3, d5, d6, d8, d9) {
        (
            Some(y0),
            Some(y1),
            Some(y2),
            Some(y3),
            Some(m0),
            Some(m1),
            Some(dd0),
            Some(dd1),
        ) => {
            let year: u16 = y0 as u16 * 1000 + y1 as u16 * 100 + y2 as u16 * 10 + y3 as u16;
            let month: u8 = m0 * 10 + m1;
            let day: u8 = dd0 * 10 + dd1;
            Date::new(year, month, day)
        },
        _ => None,
    }
}

} // verus!
