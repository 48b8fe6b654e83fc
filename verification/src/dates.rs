//! Calendar dates derived from filesystem timestamps, and their
//! `YYYY-MM-DD` rendering used to name destination buckets.

use vstd::prelude::*;
use vstd::string::StringExecFns;
use chrono::Datelike;

verus! {

/// A civil (proleptic Gregorian) calendar date, held as plain values.
#[derive(Clone, Copy, PartialEq, Eq, Structural, Debug)]
pub struct Date {
    pub year: u16,
    pub month: u8,
    pub day: u8,
}

impl Date {
    /// A date the library works with: a year that four digits can render,
    /// and month and day in their calendar ranges.
    pub open spec fn wf(self) -> bool {
        self.year <= 9999 && 1 <= self.month <= 12 && 1 <= self.day <= 31
    }
}

/// The earliest timestamp whose civil date the library renders:
/// 0000-01-01T00:00:00 UTC, in seconds since the Unix epoch.
pub const EARLIEST_DATED_SECS: i64 = -62167219200;

/// The latest timestamp whose civil date the library renders:
/// 9999-12-31T23:59:59 UTC, in seconds since the Unix epoch.
pub const LATEST_DATED_SECS: i64 = 253402300799;

/// The year, month and day that a count of non-leap seconds since the Unix
/// epoch falls on, on the proleptic Gregorian calendar in UTC.
pub uninterp spec fn civil_of(secs: int) -> (int, int, int);

/// Relies on chrono: `DateTime::<Utc>::from_timestamp` maps a count of
/// non-leap seconds since the Unix epoch to the UTC date and time it names,
/// and the `Datelike` accessors `year`, `month` and `day` read the civil
/// date, with `month` in `1..=12` and `day` in `1..=31` as their
/// documentation states. The civil date is a function of the seconds alone.
/// The admitted range of seconds spans the years 0 through 9999, so the
/// year fits four digits and the conversion cannot fail.
#[verifier::external_body]
pub(crate) fn civil_date_of_timestamp(secs: i64) -> (r: Date)
    requires
        EARLIEST_DATED_SECS <= secs <= LATEST_DATED_SECS,
    ensures
        (r.year as int, r.month as int, r.day as int) == civil_of(secs as int),
        r.wf(),
{
    let dt = chrono::DateTime::from_timestamp(secs, 0).unwrap();
    Date { year: dt.year() as u16, month: dt.month() as u8, day: dt.day() as u8 }
}

/// The decimal digit character for a value in `0..=9`.
pub open spec fn decimal_digit(d: int) -> char {
    if d == 0 {
        '0'
    } else if d == 1 {
        '1'
    } else if d == 2 {
        '2'
    } else if d == 3 {
        '3'
    } else if d == 4 {
        '4'
    } else if d == 5 {
        '5'
    } else if d == 6 {
        '6'
    } else if d == 7 {
        '7'
    } else if d == 8 {
        '8'
    } else {
        '9'
    }
}

/// The ten characters of a date rendered `YYYY-MM-DD`: the year zero-padded
/// to four digits, the month and the day each zero-padded to two.
pub open spec fn ymd_seq(y: int, m: int, d: int) -> Seq<char> {
    seq![
        decimal_digit(y / 1000 % 10),
        decimal_digit(y / 100 % 10),
        decimal_digit(y / 10 % 10),
        decimal_digit(y % 10),
        '-',
        decimal_digit(m / 10 % 10),
        decimal_digit(m % 10),
        '-',
        decimal_digit(d / 10 % 10),
        decimal_digit(d % 10),
    ]
}

fn decimal_digit_str(d: u16) -> (r: &'static str)
    requires
        d < 10,
    ensures
        r@ =~= seq![decimal_digit(d as int)],
{
    if d == 0 {
        proof {
            reveal_strlit("0");
        }
        "0"
    } else if d == 1 {
        proof {
            reveal_strlit("1");
        }
        "1"
    } else if d == 2 {
        proof {
            reveal_strlit("2");
        }
        "2"
    } else if d == 3 {
        proof {
            reveal_strlit("3");
        }
        "3"
    } else if d == 4 {
        proof {
            reveal_strlit("4");
        }
        "4"
    } else if d == 5 {
        proof {
            reveal_strlit("5");
        }
        "5"
    } else if d == 6 {
        proof {
            reveal_strlit("6");
        }
        "6"
    } else if d == 7 {
        proof {
            reveal_strlit("7");
        }
        "7"
    } else if d == 8 {
        proof {
            reveal_strlit("8");
        }
        "8"
    } else {
        proof {
            reveal_strlit("9");
        }
        "9"
    }
}

fn hyphen_str() -> (r: &'static str)
    ensures
        r@ =~= seq!['-'],
{
    proof {
        reveal_strlit("-");
    }
    "-"
}

/// Renders a date as `YYYY-MM-DD`.
pub fn format_ymd(date: &Date) -> (r: String)
    ensures
        r@ == ymd_seq(date.year as int, date.month as int, date.day as int),
{
    let y: u16 = date.year;
    let m: u16 = date.month as u16;
    let d: u16 = date.day as u16;
    let mut s = String::new();
    s.append(decimal_digit_str(y / 1000 % 10));
    s.append(decimal_digit_str(y / 100 % 10));
    s.append(decimal_digit_str(y / 10 % 10));
    s.append(decimal_digit_str(y % 10));
    s.append(hyphen_str());
    s.append(decimal_digit_str(m / 10 % 10));
    s.append(decimal_digit_str(m % 10));
    s.append(hyphen_str());
    s.append(decimal_digit_str(d / 10 % 10));
    s.append(decimal_digit_str(d % 10));
    proof {
        assert(s@ =~= ymd_seq(date.year as int, date.month as int, date.day as int));
    }
    s
}

} // verus!
