//! Calendar dates as plain year/month/day values, with the proleptic
//! Gregorian rules: leap years, month lengths, day-by-day stepping, and
//! offset arithmetic built on that stepping.
//!
//! Dates are restricted to the years 0000 through 9999, the range that the
//! store's strict `YYYY-MM-DD` document format can carry.

use vstd::prelude::*;
use vstd::math::abs;

verus! {

/// One calendar date, timezone-naive.
#[derive(Clone, Copy, PartialEq, Eq, Structural, Debug)]
pub struct Date {
    pub year: u16,
    pub month: u8,
    pub day: u8,
}

/// A year has 366 days when divisible by 4, except centuries not divisible by 400.
pub open spec fn spec_is_leap_year(y: int) -> bool {
    y % 4 == 0 && (y % 100 != 0 || y % 400 == 0)
}

/// Number of days in the given month of the given year.
pub open spec fn spec_days_in_month(y: int, m: int) -> int {
    if m == 2 {
        if spec_is_leap_year(y) {
            29
        } else {
            28
        }
    } else if m == 4 || m == 6 || m == 9 || m == 11 {
        30
    } else {
        31
    }
}

impl Date {
    /// A well-formed date: the year fits the four-digit format, month and
    /// day are valid for the Gregorian calendar.
    pub open spec fn wf(self) -> bool {
        &&& self.year <= 9999
        &&& 1 <= self.month <= 12
        &&& 1 <= self.day <= spec_days_in_month(self.year as int, self.month as int)
    }
}

/// `a` is on or before `b` in calendar order (lexicographic on year, month, day).
pub open spec fn spec_date_le(a: Date, b: Date) -> bool {
    ||| a.year < b.year
    ||| (a.year == b.year && a.month < b.month)
    ||| (a.year == b.year && a.month == b.month && a.day <= b.day)
}

/// `a` is strictly before `b` in calendar order.
pub open spec fn spec_date_lt(a: Date, b: Date) -> bool {
    spec_date_le(a, b) && a != b
}

/// The day after `d`, or `None` past the supported range (9999-12-31).
pub open spec fn spec_next_date(d: Date) -> Option<Date> {
    if d.day < spec_days_in_month(d.year as int, d.month as int) {
        Some(Date { year: d.year, month: d.month, day: (d.day + 1) as u8 })
    } else if d.month < 12 {
        Some(Date { year: d.year, month: (d.month + 1) as u8, day: 1 })
    } else if d.year < 9999 {
        Some(Date { year: (d.year + 1) as u16, month: 1, day: 1 })
    } else {
        None
    }
}

/// The day before `d`, or `None` before the supported range (0000-01-01).
pub open spec fn spec_prev_date(d: Date) -> Option<Date> {
    if d.day > 1 {
        Some(Date { year: d.year, month: d.month, day: (d.day - 1) as u8 })
    } else if d.month > 1 {
        Some(
            Date {
                year: d.year,
                month: (d.month - 1) as u8,
                day: spec_days_in_month(d.year as int, d.month - 1) as u8,
            },
        )
    } else if d.year > 0 {
        Some(Date { year: (d.year - 1) as u16, month: 12, day: 31 })
    } else {
        None
    }
}

/// `d` moved by `n` calendar days (`n` may be negative), or `None` when the
/// walk leaves the supported year range.
pub open spec fn spec_add_days(d: Date, n: int) -> Option<Date>
    decreases abs(n),
{
    if n == 0 {
        Some(d)
    } else if n > 0 {
        match spec_next_date(d) {
            Some(e) => spec_add_days(e, n - 1),
            None => None,
        }
    } else {
        match spec_prev_date(d) {
            Some(e) => spec_add_days(e, n + 1),
            None => None,
        }
    }
}

pub fn is_leap_year(y: u16) -> (r: bool)
    ensures
        r == spec_is_leap_year(y as int),
{
    y % 4 == 0 && (y % 100 != 0 || y % 400 == 0)
}

pub fn days_in_month(y: u16, m: u8) -> (r: u8)
    ensures
        r as int == spec_days_in_month(y as int, m as int),
{
    if m == 2 {
        if is_leap_year(y) {
            29
        } else {
            28
        }
    } else if m == 4 || m == 6 || m == 9 || m == 11 {
        30
    } else {
        31
    }
}

/// Whether the fields form a well-formed calendar date.
pub fn is_valid_date(d: &Date) -> (r: bool)
    ensures
        r == d.wf(),
{
    d.year <= 9999 && 1 <= d.month && d.month <= 12 && 1 <= d.day && d.day <= days_in_month(
        d.year,
        d.month,
    )
}

pub fn date_le(a: &Date, b: &Date) -> (r: bool)
    ensures
        r == spec_date_le(*a, *b),
{
    a.year < b.year || (a.year == b.year && (a.month < b.month || (a.month == b.month && a.day
        <= b.day)))
}

pub fn date_lt(a: &Date, b: &Date) -> (r: bool)
    ensures
        r == spec_date_lt(*a, *b),
{
    date_le(a, b) && !(a.year == b.year && a.month == b.month && a.day == b.day)
}

pub fn next_date(d: &Date) -> (r: Option<Date>)
    requires
        d.wf(),
    ensures
        r == spec_next_date(*d),
{
    if d.day < days_in_month(d.year, d.month) {
        Some(Date { year: d.year, month: d.month, day: d.day + 1 })
    } else if d.month < 12 {
        Some(Date { year: d.year, month: d.month + 1, day: 1 })
    } else if d.year < 9999 {
        Some(Date { year: d.year + 1, month: 1, day: 1 })
    } else {
        None
    }
}

pub fn prev_date(d: &Date) -> (r: Option<Date>)
    requires
        d.wf(),
    ensures
        r == spec_prev_date(*d),
{
    if d.day > 1 {
        Some(Date { year: d.year, month: d.month, day: d.day - 1 })
    } else if d.month > 1 {
        Some(Date { year: d.year, month: d.month - 1, day: days_in_month(d.year, d.month - 1) })
    } else if d.year > 0 {
        Some(Date { year: d.year - 1, month: 12, day: 31 })
    } else {
        None
    }
}

/// Stepping forward stays well-formed.
pub proof fn lemma_next_date_wf(d: Date)
    requires
        d.wf(),
    ensures
        spec_next_date(d) matches Some(e) ==> e.wf(),
{
}

/// Stepping backward stays well-formed.
pub proof fn lemma_prev_date_wf(d: Date)
    requires
        d.wf(),
    ensures
        spec_prev_date(d) matches Some(e) ==> e.wf(),
{
}

/// Stepping by any offset stays well-formed.
pub proof fn lemma_add_days_wf(d: Date, n: int)
    requires
        d.wf(),
    ensures
        spec_add_days(d, n) matches Some(e) ==> e.wf(),
    decreases abs(n),
{
    if n > 0 {
        lemma_next_date_wf(d);
        if let Some(e) = spec_next_date(d) {
            lemma_add_days_wf(e, n - 1);
        }
    } else if n < 0 {
        lemma_prev_date_wf(d);
        if let Some(e) = spec_prev_date(d) {
            lemma_add_days_wf(e, n + 1);
        }
    }
}

/// The previous day is strictly earlier in calendar order.
pub proof fn lemma_prev_date_lt(d: Date)
    ensures
        spec_prev_date(d) matches Some(p) ==> spec_date_lt(p, d),
{
}

/// Moving by a non-positive number of days never lands after the start:
/// the cutoff `today - retention` is never later than `today`.
pub proof fn lemma_add_days_nonpos_le(d: Date, n: int)
    requires
        n <= 0,
    ensures
        spec_add_days(d, n) matches Some(e) ==> spec_date_le(e, d),
    decreases abs(n),
{
    if n < 0 {
        lemma_prev_date_lt(d);
        if let Some(p) = spec_prev_date(d) {
            lemma_add_days_nonpos_le(p, n + 1);
        }
    }
}

/// `d` moved by `n` calendar days; `None` when the walk would leave the
/// years 0000 through 9999.
pub fn add_days(d: &Date, n: i64) -> (r: Option<Date>)
    requires
        d.wf(),
    ensures
        r == spec_add_days(*d, n as int),
        r matches Some(e) ==> e.wf(),
{
    let mut cur: Date = *d;
    let mut remaining: i64 = n;
    while remaining != 0
        invariant
            cur.wf(),
            spec_add_days(cur, remaining as int) == spec_add_days(*d, n as int),
        decreases abs(remaining as int),
    {
        if remaining > 0 {
            match next_date(&cur) {
                Some(e) => {
                    proof {
                        lemma_next_date_wf(cur);
                    }
                    cur = e;
                    remaining = remaining - 1;
                },
                None => {
                    return None;
                },
            }
        } else {
            match prev_date(&cur) {
                Some(e) => {
                    proof {
                        lemma_prev_date_wf(cur);
                    }
                    cur = e;
                    remaining = remaining + 1;
                },
                None => {
                    return None;
                },
            }
        }
    }
    Some(cur)
}

/// Relies on `chrono::Utc::now` and chrono's `Datelike` accessors `year`,
/// `month` and `day` for the current UTC calendar date: `month` is
/// documented to range over 1..=12 and `day` over 1..=31.
#[verifier::external_body]
fn clock_today_ymd() -> (r: (i64, u8, u8))
    ensures
        1 <= r.1 <= 12,
        1 <= r.2 <= 31,
{
    let d = chrono::Utc::now().date_naive();
    (
        chrono::Datelike::year(&d) as i64,
        chrono::Datelike::month(&d) as u8,
        chrono::Datelike::day(&d) as u8,
    )
}

/// The current UTC calendar date, or `None` if the clock reports a date
/// outside the supported year range.
pub fn today() -> (r: Option<Date>)
    ensures
        r matches Some(d) ==> d.wf(),
{
    let (y, m, dd) = clock_today_ymd();
    if 0 <= y && y <= 9999 {
        let date = Date { year: y as u16, month: m, day: dd };
        if is_valid_date(&date) {
            Some(date)
        } else {
            None
        }
    } else {
        None
    }
}

} // verus!
