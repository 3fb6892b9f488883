//! Calendar dates as plain values, their `YYYY-MM-DD` rendering, and the
//! local-clock source of the default target date.

use vstd::prelude::*;
use chrono::Datelike;

verus! {

/// A calendar date, held as plain year, month and day numbers.
#[derive(Clone, Copy, PartialEq, Eq, Structural, Debug)]
pub struct Date {
    pub year: u16,
    pub month: u8,
    pub day: u8,
}

impl Date {
    /// A date renderable as `YYYY-MM-DD`: four-digit year, calendar ranges.
    pub open spec fn valid(&self) -> bool {
        &&& self.year <= 9999
        &&& 1 <= self.month <= 12
        &&& 1 <= self.day <= 31
    }

    /// Builds a date after checking the calendar ranges.
    pub fn from_ymd(year: u16, month: u8, day: u8) -> (r: Option<Date>)
        ensures
            match r {
                Option::Some(d) => d.valid() && d.year == year && d.month == month && d.day == day,
                Option::None => !(Date { year, month, day }).valid(),
            },
    {
        if year <= 9999 && 1 <= month && month <= 12 && 1 <= day && day <= 31 {
            Option::Some(Date { year, month, day })
        } else {
            Option::None
        }
    }
}

/// The character for one decimal digit value.
pub open spec fn digit_char(v: int) -> char {
    if v == 0 {
        '0'
    } else if v == 1 {
        '1'
    } else if v == 2 {
        '2'
    } else if v == 3 {
        '3'
    } else if v == 4 {
        '4'
    } else if v == 5 {
        '5'
    } else if v == 6 {
        '6'
    } else if v == 7 {
        '7'
    } else if v == 8 {
        '8'
    } else {
        '9'
    }
}

/// The ten characters of a date rendered as `YYYY-MM-DD`.
pub open spec fn date_chars(d: Date) -> Seq<char> {
    seq![
        digit_char(d.year as int / 1000 % 10),
        digit_char(d.year as int / 100 % 10),
        digit_char(d.year as int / 10 % 10),
        digit_char(d.year as int % 10),
        '-',
        digit_char(d.month as int / 10),
        digit_char(d.month as int % 10),
        '-',
        digit_char(d.day as int / 10),
        digit_char(d.day as int % 10),
    ]
}

/// One decimal digit as a string slice.
fn digit_str(v: u8) -> (r: &'static str)
    requires
        v <= 9,
    ensures
        r@ =~= seq![digit_char(v as int)],
{
    proof {
        reveal_strlit("0");
        reveal_strlit("1");
        reveal_strlit("2");
        reveal_strlit("3");
        reveal_strlit("4");
        reveal_strlit("5");
        reveal_strlit("6");
        reveal_strlit("7");
        reveal_strlit("8");
        reveal_strlit("9");
    }
    match v {
        0 => "0",
        1 => "1",
        2 => "2",
        3 => "3",
        4 => "4",
        5 => "5",
        6 => "6",
        7 => "7",
        8 => "8",
        _ => "9",
    }
}

/// Renders a date as `YYYY-MM-DD`.
pub fn format_date(d: &Date) -> (r: String)
    requires
        d.valid(),
    ensures
        r@ == date_chars(*d),
{
    proof {
        reveal_strlit("-");
    }
    let mut s = String::new();
    s.append(digit_str((d.year / 1000 % 10) as u8));
    s.append(digit_str((d.year / 100 % 10) as u8));
    s.append(digit_str((d.year / 10 % 10) as u8));
    s.append(digit_str((d.year % 10) as u8));
    s.append("-");
    s.append(digit_str(d.month / 10));
    s.append(digit_str(d.month % 10));
    s.append("-");
    s.append(digit_str(d.day / 10));
    s.append(digit_str(d.day % 10));
    proof {
        assert(s@ =~= date_chars(*d));
    }
    s
}

/// The marker a producing daemon writes before a banned address, for one date.
pub open spec fn ban_token(d: Date) -> Seq<char> {
    "Ban "@ + date_chars(d) + " "@
}

/// Builds the ban token of `d` as a string.
pub fn make_ban_token(d: &Date) -> (r: String)
    requires
        d.valid(),
    ensures
        r@ == ban_token(*d),
{
    let mut s: String = "Ban ".to_owned();
    let ds = format_date(d);
    s.append(ds.as_str());
    s.append(" ");
    proof {
        assert(s@ =~= ban_token(*d));
    }
    s
}

/// Relies on chrono::Local::now and chrono::Datelike::{year, month, day}:
/// the month ranges over 1..=12 and the day over 1..=31; the year is the
/// local calendar year and carries no further guarantee. Note that chrono
/// aborts when the system clock predates the Unix epoch or the local offset
/// cannot be determined: the no-panic guarantee of this library assumes a
/// sane clock.
#[verifier::external_body]
fn local_now_ymd() -> (r: (i32, u32, u32))
    ensures
        1 <= r.1 <= 12,
        1 <= r.2 <= 31,
{
    let now = chrono::Local::now().date_naive();
    (now.year(), now.month(), now.day())
}

/// Builds a date from a clock reading: accepted exactly when the year is
/// renderable as four digits.
pub fn date_from_clock(y: i32, m: u32, d: u32) -> (r: Option<Date>)
    requires
        1 <= m <= 12,
        1 <= d <= 31,
    ensures
        r is Some <==> 0 <= y <= 9999,
        match r {
            Option::Some(x) => x.valid() && x.year as int == y && x.month as int == m && x.day
                as int == d,
            Option::None => !(0 <= y <= 9999),
        },
{
    if 0 <= y && y <= 9999 {
        Option::Some(Date { year: y as u16, month: m as u8, day: d as u8 })
    } else {
        Option::None
    }
}

/// Today's date by the local clock, when its year is renderable as four digits.
pub fn local_today() -> (r: Option<Date>)
    ensures
        match r {
            Option::Some(d) => d.valid(),
            Option::None => true,
        },
{
    let (y, m, d) = local_now_ymd();
    date_from_clock(y, m, d)
}

} // verus!
