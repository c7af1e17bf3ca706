use vstd::prelude::*;
use chrono::Datelike;

verus! {

/// First year that a calendar date can carry.
pub const MIN_YEAR: i32 = -262143;

/// Last year that a calendar date can carry.
pub const MAX_YEAR: i32 = 262142;

pub open spec fn is_leap_year(year: int) -> bool {
    (year % 4 == 0 && year % 100 != 0) || year % 400 == 0
}

pub open spec fn month_length(year: int, month: int) -> int {
    if month == 2 {
        if is_leap_year(year) { 29 } else { 28 }
    } else if month == 4 || month == 6 || month == 9 || month == 11 {
        30
    } else {
        31
    }
}

/// Days of the year that lie before the first of `month`.
pub open spec fn days_before_month(year: int, month: int) -> int
    decreases month,
{
    if month <= 1 {
        0
    } else {
        days_before_month(year, month - 1) + month_length(year, month - 1)
    }
}

/// A real day of the Gregorian calendar, within the years a date can carry.
pub open spec fn is_calendar_date(year: int, month: int, day: int) -> bool {
    &&& MIN_YEAR <= year <= MAX_YEAR
    &&& 1 <= month <= 12
    &&& 1 <= day <= month_length(year, month)
}

/// Day number of a calendar date: 1 January of year 1 is day 1, the day before
/// it (31 December of year 0, i.e. 1 BCE) is day 0.
pub open spec fn day_number(year: int, month: int, day: int) -> int {
    let y = year - 1;
    y * 365 + y / 4 - y / 100 + y / 400 + days_before_month(year, month) + day
}

/// Relies on chrono's `NaiveDate::from_ymd_opt`, which accepts exactly the real
/// days of the years `MIN_YEAR..=MAX_YEAR`, and on `Datelike::num_days_from_ce`
/// of the date it makes, which counts 1 January of year 1 as day 1.
#[verifier::external_body]
fn ymd_day_number(year: i32, month: u32, day: u32) -> (r: Option<i32>)
    ensures
        r is Some <==> is_calendar_date(year as int, month as int, day as int),
        r matches Some(n) ==> n == day_number(year as int, month as int, day as int),
{
    chrono::NaiveDate::from_ymd_opt(year, month, day).map(|d| d.num_days_from_ce())
}

/// A calendar date, held as its day number in the proleptic Gregorian calendar
/// (1 January of year 1 is day 1).
#[derive(Clone, Copy, Debug, PartialEq, Eq, Structural)]
pub struct Date {
    pub days: i32,
}

impl Date {
    /// The date of day number `days`.
    pub fn from_days(days: i32) -> (r: Date)
        ensures
            r.days == days,
    {
        Date { days }
    }

    /// The date of a year, month and day, or `None` where these name no day
    /// of the calendar.
    pub fn from_ymd(year: i32, month: u32, day: u32) -> (r: Option<Date>)
        ensures
            r is Some <==> is_calendar_date(year as int, month as int, day as int),
            r matches Some(d) ==> d.days == day_number(year as int, month as int, day as int),
    {
        match ymd_day_number(year, month, day) {
            Some(days) => Some(Date { days }),
            None => None,
        }
    }

    /// Day number of the date `n` days before this one, held as an `i64` so
    /// that it always exists.
    pub fn days_before(self, n: u32) -> (r: i64)
        ensures
            r == self.days - n,
    {
        self.days as i64 - n as i64
    }
}

} // verus!
