//! Calendar dates and the `%b-%d-%y` date token codec.
//!
//! Both feeds carry dates as `Mon-DD-YY` tokens (`Jan-01-05`): an English
//! month token — the three letter abbreviation or the full name, ASCII case
//! ignored — a one or two digit day, and exactly two year digits.  The year
//! width is fixed on purpose: a four digit year is rejected rather than
//! guessed at.  Two digit years follow the usual pivot: `00`–`68` mean
//! 2000–2068 and `69`–`99` mean 1969–1999.  A date that does not exist on
//! the calendar is rejected, leap years included.

use vstd::prelude::*;

use crate::text::{
    eq_str, lower_chars, parse_num, spec_lower, spec_parse_num, spec_split, split_char, string_of,
};

verus! {

/// A calendar date as plain numbers: no time zone, no time of day.
#[derive(Clone, Copy, Debug, PartialEq, Eq, Structural)]
pub struct Date {
    pub year: i32,
    pub month: i32,
    pub day: i32,
}

/// A malformed or nonexistent date token.
#[derive(Clone, Copy, Debug, PartialEq, Eq, Structural)]
pub struct DateParseError;

pub open spec fn is_leap_year(y: int) -> bool {
    y % 4 == 0 && (y % 100 != 0 || y % 400 == 0)
}

pub open spec fn days_in_month(y: int, m: int) -> int {
    if m == 2 {
        if is_leap_year(y) {
            29
        } else {
            28
        }
    } else if m == 4 || m == 6 || m == 9 || m == 11 {
        30
    } else {
        31
    }
}

/// A month/day pair that exists in the given year.
pub open spec fn valid_date(y: int, m: int, d: int) -> bool {
    1 <= m <= 12 && 1 <= d <= days_in_month(y, m)
}

/// Sentinel standing before every date the feeds can encode.
pub open spec fn spec_min_date() -> Date {
    Date { year: (-9999) as i32, month: 1 as i32, day: 1 as i32 }
}

/// Sentinel standing after every date the feeds can encode.
pub open spec fn spec_max_date() -> Date {
    Date { year: 9999 as i32, month: 12 as i32, day: 31 as i32 }
}

impl Date {
    /// The date exists on the calendar.
    pub open spec fn wf(self) -> bool {
        valid_date(self.year as int, self.month as int, self.day as int)
    }

    /// Sentinel standing before every date the feeds can encode.
    pub fn min_date() -> (r: Date)
        ensures
            r == spec_min_date(),
            r.wf(),
    {
        Date { year: -9999, month: 1, day: 1 }
    }

    /// Sentinel standing after every date the feeds can encode.
    pub fn max_date() -> (r: Date)
        ensures
            r == spec_max_date(),
            r.wf(),
    {
        Date { year: 9999, month: 12, day: 31 }
    }
}

/// Month number of an English month token — the three letter abbreviation
/// or the full name — compared without regard to ASCII case.
pub open spec fn spec_month_num(t: Seq<char>) -> Option<i32> {
    let l = spec_lower(t);
    if l == "jan"@ || l == "january"@ {
        Some(1i32)
    } else if l == "feb"@ || l == "february"@ {
        Some(2i32)
    } else if l == "mar"@ || l == "march"@ {
        Some(3i32)
    } else if l == "apr"@ || l == "april"@ {
        Some(4i32)
    } else if l == "may"@ {
        Some(5i32)
    } else if l == "jun"@ || l == "june"@ {
        Some(6i32)
    } else if l == "jul"@ || l == "july"@ {
        Some(7i32)
    } else if l == "aug"@ || l == "august"@ {
        Some(8i32)
    } else if l == "sep"@ || l == "september"@ {
        Some(9i32)
    } else if l == "oct"@ || l == "october"@ {
        Some(10i32)
    } else if l == "nov"@ || l == "november"@ {
        Some(11i32)
    } else if l == "dec"@ || l == "december"@ {
        Some(12i32)
    } else {
        None
    }
}

/// Day number of a day token: one or two digits.
pub open spec fn spec_day_num(t: Seq<char>) -> Option<i32> {
    if t.len() <= 2 {
        spec_parse_num(t)
    } else {
        None
    }
}

/// Full year of a two digit year token, around the 1969/2068 pivot.
pub open spec fn spec_year_num(t: Seq<char>) -> Option<i32> {
    if t.len() == 2 {
        match spec_parse_num(t) {
            Some(v) => if v <= 68 {
                Some((2000 + v) as i32)
            } else {
                Some((1900 + v) as i32)
            },
            None => None,
        }
    } else {
        None
    }
}

/// The date a `Mon-DD-YY` token encodes, or `None` for a malformed token or
/// one naming a day that does not exist in its month and year.
pub open spec fn spec_parse_date(s: Seq<char>) -> Option<Date> {
    let parts = spec_split(s, '-');
    if parts.len() != 3 {
        None
    } else {
        match (spec_month_num(parts[0]), spec_day_num(parts[1]), spec_year_num(parts[2])) {
            (Some(m), Some(d), Some(y)) => if valid_date(y as int, m as int, d as int) {
                Some(Date { year: y, month: m, day: d })
            } else {
                None
            },
            _ => None,
        }
    }
}

fn month_num(t: &Vec<char>) -> (r: Option<i32>)
    ensures
        r == spec_month_num(t@),
{
    let l = string_of(&lower_chars(t));
    let ls = l.as_str();
    if eq_str(ls, "jan") || eq_str(ls, "january") {
        Some(1)
    } else if eq_str(ls, "feb") || eq_str(ls, "february") {
        Some(2)
    } else if eq_str(ls, "mar") || eq_str(ls, "march") {
        Some(3)
    } else if eq_str(ls, "apr") || eq_str(ls, "april") {
        Some(4)
    } else if eq_str(ls, "may") {
        Some(5)
    } else if eq_str(ls, "jun") || eq_str(ls, "june") {
        Some(6)
    } else if eq_str(ls, "jul") || eq_str(ls, "july") {
        Some(7)
    } else if eq_str(ls, "aug") || eq_str(ls, "august") {
        Some(8)
    } else if eq_str(ls, "sep") || eq_str(ls, "september") {
        Some(9)
    } else if eq_str(ls, "oct") || eq_str(ls, "october") {
        Some(10)
    } else if eq_str(ls, "nov") || eq_str(ls, "november") {
        Some(11)
    } else if eq_str(ls, "dec") || eq_str(ls, "december") {
        Some(12)
    } else {
        None
    }
}

fn exec_is_leap_year(y: i32) -> (r: bool)
    ensures
        r == is_leap_year(y as int),
{
    y % 4 == 0 && (y % 100 != 0 || y % 400 == 0)
}

fn exec_days_in_month(y: i32, m: i32) -> (r: i32)
    ensures
        r as int == days_in_month(y as int, m as int),
{
    if m == 2 {
        if exec_is_leap_year(y) {
            29
        } else {
            28
        }
    } else if m == 4 || m == 6 || m == 9 || m == 11 {
        30
    } else {
        31
    }
}

/// Parses a `Mon-DD-YY` date token, exactly as `spec_parse_date` describes:
/// `Ok` precisely on the tokens that encode an existing calendar date.
pub fn parse_date(token: &str) -> (r: Result<Date, DateParseError>)
    ensures
        match (r, spec_parse_date(token@)) {
            (Ok(d), Some(sd)) => d == sd && d.wf(),
            (Err(_), None) => true,
            _ => false,
        },
{
    let cs = crate::text::chars_of(token);
    let parts = split_char(&cs, '-');
    if parts.len() != 3 {
        return Err(DateParseError);
    }
    proof {
        assert(parts@[0].deep_view() =~= parts@[0]@);
        assert(parts@[1].deep_view() =~= parts@[1]@);
        assert(parts@[2].deep_view() =~= parts@[2]@);
    }
    let month = match month_num(&parts[0]) {
        Some(m) => m,
        None => {
            return Err(DateParseError);
        },
    };
    let day = match parse_num(&parts[1]) {
        Some(d) if parts[1].len() <= 2 => d,
        _ => {
            return Err(DateParseError);
        },
    };
    if parts[2].len() != 2 {
        return Err(DateParseError);
    }
    let year = match parse_num(&parts[2]) {
        Some(v) => {
            proof {
                crate::text::lemma_digits_val_bound4(parts@[2]@);
            }
            if v <= 68 {
                2000 + v
            } else {
                1900 + v
            }
        },
        None => {
            return Err(DateParseError);
        },
    };
    if day < 1 || day > exec_days_in_month(year, month) {
        return Err(DateParseError);
    }
    Ok(Date { year, month, day })
}

} // verus!
