//! Calendar dates as plain year/month/day values, with the proleptic
//! Gregorian validity rule used everywhere a date is parsed or rendered.

use vstd::prelude::*;
use vstd::string::StrSliceExecFns;
use vstd::string::StringExecFns;
use chrono::Datelike;
use crate::num::spec_digit_char;
use crate::num::spec_char_val;
use crate::num::is_digit_char;
use crate::num::char_val;
use crate::num::digit_str;

verus! {

/// A calendar date, no time of day. Valid dates (see [`Date::valid`]) fit the
/// fixed-width `YYYY-MM-DD` rendering, so years run from 0000 to 9999.
#[derive(Clone, Copy, Debug, PartialEq, Eq, Structural)]
pub struct Date {
    pub year: u16,
    pub month: u8,
    pub day: u8,
}

pub open spec fn spec_is_leap_year(y: int) -> bool {
    y % 4 == 0 && (y % 100 != 0 || y % 400 == 0)
}

pub open spec fn spec_days_in_month(y: int, m: int) -> int {
    if m == 2 {
        if spec_is_leap_year(y) {
            29
        } else {
            28
        }
    } else if m == 4 || m == 6 || m == 9 || m == 11 {
        30
    } else {
        31
    }
}

impl Date {
    /// The date names a real day of the proleptic Gregorian calendar and its
    /// year has at most four digits.
    pub open spec fn valid(self) -> bool {
        &&& self.year <= 9999
        &&& 1 <= self.month <= 12
        &&& 1 <= self.day <= spec_days_in_month(self.year as int, self.month as int)
    }
}

pub fn days_in_month(y: u16, m: u8) -> (r: u8)
    requires
        1 <= m <= 12,
    ensures
        r as int == spec_days_in_month(y as int, m as int),
{
    if m == 2 {
        if y % 4 == 0 && (y % 100 != 0 || y % 400 == 0) {
            29
        } else {
            28
        }
    } else if m == 4 || m == 6 || m == 9 || m == 11 {
        30
    } else {
        31
    }
}

/// The fixed-width `YYYY-MM-DD` rendering of a date.
pub open spec fn spec_render_date(d: Date) -> Seq<char> {
    let y = d.year as int;
    let m = d.month as int;
    let dd = d.day as int;
    seq![
        spec_digit_char(y / 1000),
        spec_digit_char((y / 100) % 10),
        spec_digit_char((y / 10) % 10),
        spec_digit_char(y % 10),
        '-',
        spec_digit_char(m / 10),
        spec_digit_char(m % 10),
        '-',
        spec_digit_char(dd / 10),
        spec_digit_char(dd % 10),
    ]
}

/// What a date field denotes: exactly ten characters in `YYYY-MM-DD` shape
/// naming a valid calendar date, and nothing else.
pub open spec fn spec_parse_date(f: Seq<char>) -> Option<Date> {
    if f.len() == 10 && f[4] == '-' && f[7] == '-' && is_digit_char(f[0]) && is_digit_char(f[1])
        && is_digit_char(f[2]) && is_digit_char(f[3]) && is_digit_char(f[5]) && is_digit_char(f[6])
        && is_digit_char(f[8]) && is_digit_char(f[9]) {
        let y = ((spec_char_val(f[0]) * 10 + spec_char_val(f[1])) * 10 + spec_char_val(f[2])) * 10
            + spec_char_val(f[3]);
        let m = spec_char_val(f[5]) * 10 + spec_char_val(f[6]);
        let dd = spec_char_val(f[8]) * 10 + spec_char_val(f[9]);
        if 1 <= m <= 12 && 1 <= dd <= spec_days_in_month(y, m) {
            Some(Date { year: y as u16, month: m as u8, day: dd as u8 })
        } else {
            None
        }
    } else {
        None
    }
}

pub fn render_date(d: Date) -> (r: String)
    requires
        d.valid(),
    ensures
        r@ == spec_render_date(d),
{
    let mut r = String::new();
    r.append(digit_str((d.year / 1000) as u8));
    r.append(digit_str(((d.year / 100) % 10) as u8));
    r.append(digit_str(((d.year / 10) % 10) as u8));
    r.append(digit_str((d.year % 10) as u8));
    r.append("-");
    r.append(digit_str(d.month / 10));
    r.append(digit_str(d.month % 10));
    r.append("-");
    r.append(digit_str(d.day / 10));
    r.append(digit_str(d.day % 10));
    proof {
        reveal_strlit("-");
        assert(r@ =~= spec_render_date(d));
    }
    r
}

pub fn parse_date_field(f: &str) -> (r: Option<Date>)
    ensures
        r == spec_parse_date(f@),
{
    if f.unicode_len() != 10 {
        return None;
    }
    if f.get_char(4) != '-' || f.get_char(7) != '-' {
        return None;
    }
    let v0 = char_val(f.get_char(0));
    let v1 = char_val(f.get_char(1));
    let v2 = char_val(f.get_char(2));
    let v3 = char_val(f.get_char(3));
    let v5 = char_val(f.get_char(5));
    let v6 = char_val(f.get_char(6));
    let v8 = char_val(f.get_char(8));
    let v9 = char_val(f.get_char(9));
    match (v0, v1, v2, v3, v5, v6, v8, v9) {
        (
            Some(a0),
            Some(a1),
            Some(a2),
            Some(a3),
            Some(b0),
            Some(b1),
            Some(c0),
            Some(c1),
        ) => {
            let y: u16 = (a0 as u16) * 1000 + (a1 as u16) * 100 + (a2 as u16) * 10 + (a3 as u16);
            let m: u8 = b0 * 10 + b1;
            let dd: u8 = c0 * 10 + c1;
            if 1 <= m && m <= 12 && 1 <= dd && dd <= days_in_month(y, m) {
                Some(Date { year: y, month: m, day: dd })
            } else {
                None
            }
        },
        _ => None,
    }
}

/// A parsed date field is itself the rendering of the date it names: the
/// ten-character form is canonical.
pub proof fn lemma_date_parse_render(f: Seq<char>)
    requires
        spec_parse_date(f) is Some,
    ensures
        spec_parse_date(f).unwrap().valid(),
        f == spec_render_date(spec_parse_date(f).unwrap()),
{
    let d = spec_parse_date(f).unwrap();
    let y = d.year as int;
    let m = d.month as int;
    let dd = d.day as int;
    crate::num::lemma_digit_char_of_val(f[0]);
    crate::num::lemma_digit_char_of_val(f[1]);
    crate::num::lemma_digit_char_of_val(f[2]);
    crate::num::lemma_digit_char_of_val(f[3]);
    crate::num::lemma_digit_char_of_val(f[5]);
    crate::num::lemma_digit_char_of_val(f[6]);
    crate::num::lemma_digit_char_of_val(f[8]);
    crate::num::lemma_digit_char_of_val(f[9]);
    assert(y == ((spec_char_val(f[0]) * 10 + spec_char_val(f[1])) * 10 + spec_char_val(f[2])) * 10
        + spec_char_val(f[3]));
    assert(y / 1000 == spec_char_val(f[0]));
    assert((y / 100) % 10 == spec_char_val(f[1]));
    assert((y / 10) % 10 == spec_char_val(f[2]));
    assert(y % 10 == spec_char_val(f[3]));
    assert(m / 10 == spec_char_val(f[5]));
    assert(m % 10 == spec_char_val(f[6]));
    assert(dd / 10 == spec_char_val(f[8]));
    assert(dd % 10 == spec_char_val(f[9]));
    assert(f =~= spec_render_date(d));
}

/// Rendering a valid date and parsing the rendering gives the date back.
pub proof fn lemma_date_round_trip(d: Date)
    requires
        d.valid(),
    ensures
        spec_parse_date(spec_render_date(d)) == Some(d),
{
    let f = spec_render_date(d);
    let y = d.year as int;
    let m = d.month as int;
    let dd = d.day as int;
    assert(spec_char_val(f[0]) == y / 1000);
    assert(spec_char_val(f[1]) == (y / 100) % 10);
    assert(spec_char_val(f[2]) == (y / 10) % 10);
    assert(spec_char_val(f[3]) == y % 10);
    assert(spec_char_val(f[5]) == m / 10);
    assert(spec_char_val(f[6]) == m % 10);
    assert(spec_char_val(f[8]) == dd / 10);
    assert(spec_char_val(f[9]) == dd % 10);
    assert(((y / 1000) * 10 + (y / 100) % 10) * 10 + (y / 10) % 10 == y / 10) by {
        assert(y / 1000 == (y / 100) / 10);
        assert((y / 100) / 10 * 10 + (y / 100) % 10 == y / 100);
        assert(y / 100 == (y / 10) / 10);
        assert((y / 10) / 10 * 10 + (y / 10) % 10 == y / 10);
    };
    assert((y / 10) * 10 + y % 10 == y);
    assert((m / 10) * 10 + m % 10 == m);
    assert((dd / 10) * 10 + dd % 10 == dd);
}

/// Relies on `chrono::Local::now` and `chrono::NaiveDate`: `date_naive` yields
/// a `NaiveDate`, whose `month()` lies in 1..=12 and `day()` in 1..=31. The
/// year depends on the system clock, so nothing more is promised of it.
#[verifier::external_body]
fn clock_today() -> (r: (i32, u8, u8))
    ensures
        1 <= r.1 <= 12,
        1 <= r.2 <= 31,
{
    let d = chrono::Local::now().date_naive();
    (d.year(), d.month() as u8, d.day() as u8)
}

/// Builds a date from plain year, month and day values, exactly when they
/// name a real calendar day whose year has at most four digits.
pub fn date_from_ymd(y: i32, m: u8, d: u8) -> (r: Option<Date>)
    ensures
        r is Some <==> (0 <= y <= 9999 && 1 <= m <= 12 && 1 <= d as int <= spec_days_in_month(
            y as int,
            m as int,
        )),
        r is Some ==> r.unwrap() == (Date { year: y as u16, month: m, day: d }),
{
    if 0 <= y && y <= 9999 && 1 <= m && m <= 12 {
        let date = Date { year: y as u16, month: m, day: d };
        if 1 <= d && d <= days_in_month(date.year, date.month) {
            return Some(date);
        }
    }
    None
}

/// The current local calendar date, or `None` if the system clock reports a
/// year outside 0..=9999 or a day/month pair that is no calendar date.
pub fn current_date() -> (r: Option<Date>)
    ensures
        r is Some ==> r.unwrap().valid(),
{
    let (y, m, d) = clock_today();
    date_from_ymd(y, m, d)
}

} // verus!
