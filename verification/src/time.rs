//! Reading the dates of HTTP headers.

use vstd::prelude::*;

use crate::text;
use crate::text::text_eq;

verus! {

/// A point in time as an HTTP date spells it.
#[derive(Clone, Copy)]
pub struct HttpDate {
    pub year: u64,
    pub month: u64,
    pub day: u64,
    pub hour: u64,
    pub minute: u64,
    pub second: u64,
}

/// Whether a year of the Gregorian calendar has 366 days.
pub open spec fn leap(year: int) -> bool {
    (year % 4 == 0 && year % 100 != 0) || year % 400 == 0
}

/// The days from the beginning of 1970 to the beginning of `year`; none for the years
/// before.
pub open spec fn days_before_year(year: int) -> int
    decreases year - 1970,
{
    if year <= 1970 {
        0
    } else {
        days_before_year(year - 1) + (if leap(year - 1) {
            366int
        } else {
            365
        })
    }
}

/// The days of a month.
pub open spec fn month_days(year: int, month: int) -> int {
    if month == 2 {
        if leap(year) {
            29
        } else {
            28
        }
    } else if month == 4 || month == 6 || month == 9 || month == 11 {
        30
    } else {
        31
    }
}

/// The days of the year's months before `month`.
pub open spec fn days_before_month(year: int, month: int) -> int
    decreases month,
{
    if month <= 1 {
        0
    } else {
        days_before_month(year, month - 1) + month_days(year, month - 1)
    }
}

/// The seconds from the beginning of 1970 to a point in time.
pub open spec fn seconds_since_1970(d: HttpDate) -> int {
    (days_before_year(d.year as int) + days_before_month(d.year as int, d.month as int) + d.day - 1)
        * 86400 + d.hour * 3600 + d.minute * 60 + d.second
}

/// The number of a month from its English abbreviation.
pub open spec fn month_number(name: Seq<char>) -> Option<u64> {
    if name == "Jan"@ {
        Some(1)
    } else if name == "Feb"@ {
        Some(2)
    } else if name == "Mar"@ {
        Some(3)
    } else if name == "Apr"@ {
        Some(4)
    } else if name == "May"@ {
        Some(5)
    } else if name == "Jun"@ {
        Some(6)
    } else if name == "Jul"@ {
        Some(7)
    } else if name == "Aug"@ {
        Some(8)
    } else if name == "Sep"@ {
        Some(9)
    } else if name == "Oct"@ {
        Some(10)
    } else if name == "Nov"@ {
        Some(11)
    } else if name == "Dec"@ {
        Some(12)
    } else {
        None
    }
}

/// What a text of at least five words says: its second to fourth are day, month and year,
/// its fifth is the time, three numbers between colons.
pub open spec fn date_of(s: Seq<char>) -> Option<HttpDate> {
    let w = text::words_from(s, 0);
    if w.len() < 5 {
        None
    } else {
        let t = text::split_on(w[4], ':');
        if t.len() < 3 {
            None
        } else {
            match (
                text::parsed_u64(w[1]),
                month_number(w[2]),
                text::parsed_u64(w[3]),
                text::parsed_u64(t[0]),
                text::parsed_u64(t[1]),
                text::parsed_u64(t[2]),
            ) {
                (Some(day), Some(month), Some(year), Some(hour), Some(minute), Some(second)) => Some(
                    HttpDate { year, month, day, hour, minute, second },
                ),
                _ => None,
            }
        }
    }
}

/// Whether a day's number is at least one and 64 bits hold the seconds since 1970.
pub open spec fn in_range(d: HttpDate) -> bool {
    d.day >= 1 && seconds_since_1970(d) <= u64::MAX
}

/// The leap years from year 1 to `year`.
spec fn leaps_to(year: int) -> int {
    year / 4 - year / 100 + year / 400
}

proof fn lemma_leaps_to(year: int)
    requires
        year >= 1,
    ensures
        leaps_to(year) == leaps_to(year - 1) + (if leap(year) {
            1int
        } else {
            0
        }),
{
    let q = year / 400;
    let r = year % 400;
    assert(year == 400 * q + r);
    assert(year / 4 == 100 * q + r / 4);
    assert(year / 100 == 4 * q + r / 100);
    if r == 0 {
        assert((year - 1) / 4 == 100 * q - 1);
        assert((year - 1) / 100 == 4 * q - 1);
        assert((year - 1) / 400 == q - 1);
    } else {
        assert((year - 1) / 4 == 100 * q + (r - 1) / 4);
        assert((year - 1) / 100 == 4 * q + (r - 1) / 100);
        assert((year - 1) / 400 == q);
    }
}

proof fn lemma_days_before_year(year: int)
    requires
        year >= 1970,
    ensures
        days_before_year(year) == 365 * (year - 1970) + leaps_to(year - 1) - leaps_to(1969),
    decreases year,
{
    if year > 1970 {
        lemma_days_before_year(year - 1);
        lemma_leaps_to(year - 1);
    }
}

/// Whether a year has 366 days.
fn is_leap_year(year: u64) -> (r: bool)
    ensures
        r == leap(year as int),
{
    (year % 4 == 0 && year % 100 != 0) || (year % 400 == 0)
}

/// The number of a month from its English abbreviation.
fn month_of(name: &str) -> (r: Option<u64>)
    ensures
        r == month_number(name@),
{
    if text_eq(name, "Jan") {
        Some(1)
    } else if text_eq(name, "Feb") {
        Some(2)
    } else if text_eq(name, "Mar") {
        Some(3)
    } else if text_eq(name, "Apr") {
        Some(4)
    } else if text_eq(name, "May") {
        Some(5)
    } else if text_eq(name, "Jun") {
        Some(6)
    } else if text_eq(name, "Jul") {
        Some(7)
    } else if text_eq(name, "Aug") {
        Some(8)
    } else if text_eq(name, "Sep") {
        Some(9)
    } else if text_eq(name, "Oct") {
        Some(10)
    } else if text_eq(name, "Nov") {
        Some(11)
    } else if text_eq(name, "Dec") {
        Some(12)
    } else {
        None
    }
}

/// Reads the parts of a date.
pub fn parse_date(date_str: &str) -> (r: Option<HttpDate>)
    ensures
        r == date_of(date_str@),
{
    let w = text::words(date_str);
    if w.len() < 5 {
        return None;
    }
    let t = text::split(w[4].as_str(), ':');
    if t.len() < 3 {
        return None;
    }
    proof {
        let ws = text::views(w@);
        let ts = text::views(t@);
        assert(ws[1] == w@[1]@ && ws[2] == w@[2]@ && ws[3] == w@[3]@ && ws[4] == w@[4]@);
        assert(ts[0] == t@[0]@ && ts[1] == t@[1]@ && ts[2] == t@[2]@);
    }
    match (
        text::parse_u64(w[1].as_str()),
        month_of(w[2].as_str()),
        text::parse_u64(w[3].as_str()),
        text::parse_u64(t[0].as_str()),
        text::parse_u64(t[1].as_str()),
        text::parse_u64(t[2].as_str()),
    ) {
        (Some(day), Some(month), Some(year), Some(hour), Some(minute), Some(second)) => Some(
            HttpDate { year, month, day, hour, minute, second },
        ),
        _ => None,
    }
}

/// The seconds since 1970 of a date, where 64 bits hold them.
pub fn timestamp_of(d: &HttpDate) -> (r: Option<u64>)
    requires
        d.month <= 12,
    ensures
        r == (if in_range(*d) {
            Some(seconds_since_1970(*d) as u64)
        } else {
            None
        }),
{
    if d.day == 0 {
        return None;
    }
    let mut days: u128 = 0;
    if d.year > 1970 {
        let y: u128 = d.year as u128 - 1;
        days = 365 * (d.year as u128 - 1970) + (y / 4 - y / 100 + y / 400) - 477;
        proof {
            lemma_days_before_year(d.year as int);
            assert(leaps_to(1969) == 477);
        }
    }
    let mut m: u64 = 1;
    while m < d.month
        invariant
            1 <= m <= 12,
            d.month <= 12,
            d.month >= 1 ==> m <= d.month,
            d.month == 0 ==> m == 1,
            days == days_before_year(d.year as int) + days_before_month(d.year as int, m as int),
            days <= 366 * 0x1_0000_0000_0000_0000 + 31 * m,
        decreases d.month - m,
    {
        let n: u128 = if m == 2 {
            if is_leap_year(d.year) {
                29
            } else {
                28
            }
        } else if m == 4 || m == 6 || m == 9 || m == 11 {
            30
        } else {
            31
        };
        days = days + n;
        m = m + 1;
    }
    proof {
        reveal_with_fuel(days_before_month, 2);
        assert(days_before_month(d.year as int, d.month as int) == days_before_month(
            d.year as int,
            m as int,
        ));
    }
    days = days + (d.day as u128 - 1);
    let total: u128 = days * 86400 + d.hour as u128 * 3600 + d.minute as u128 * 60
        + d.second as u128;
    if total <= 0xffff_ffff_ffff_ffff {
        Some(total as u64)
    } else {
        None
    }
}

/// The seconds since 1970 that an HTTP date names; `None` where the text is no date, its
/// day is zero, or 64 bits do not hold the seconds.
pub fn parse_http_date(date_str: &str) -> (r: Option<u64>)
    ensures
        r == (match date_of(date_str@) {
            Some(d) => if in_range(d) {
                Some(seconds_since_1970(d) as u64)
            } else {
                None
            },
            None => None,
        }),
{
    match parse_date(date_str) {
        Some(d) => timestamp_of(&d),
        None => None,
    }
}

/// From 1970 on, a later day of a month is a later time: one more day is 86400 seconds.
pub proof fn law_next_day(d: HttpDate)
    requires
        d.day < u64::MAX,
    ensures
        seconds_since_1970((HttpDate { day: (d.day + 1) as u64, ..d })) == seconds_since_1970(d)
            + 86400,
{
}

/// The last month of a year ends where the next year begins.
pub proof fn law_year_is_its_months(year: int)
    requires
        year >= 1970,
    ensures
        days_before_year(year) + days_before_month(year, 12) + month_days(year, 12)
            == days_before_year(year + 1),
{
    reveal_with_fuel(days_before_month, 12);
}

} // verus!
