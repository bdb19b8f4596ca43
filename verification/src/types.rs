//! Calendar dates and exact decimal numbers.

use vstd::prelude::*;

verus! {

/// The first year that a date can have.
pub const MIN_YEAR: i32 = -262143;

/// The last year that a date can have.
pub const MAX_YEAR: i32 = 262142;

/// Whether `year` is a leap year of the proleptic Gregorian calendar.
pub open spec fn is_leap_year(year: int) -> bool {
    year % 4 == 0 && (year % 100 != 0 || year % 400 == 0)
}

/// The number of days of a month; zero where `month` is no month.
pub open spec fn days_in_month(year: int, month: int) -> int {
    if month == 2 {
        if is_leap_year(year) { 29 } else { 28 }
    } else if month == 4 || month == 6 || month == 9 || month == 11 {
        30
    } else if 1 <= month <= 12 {
        31
    } else {
        0
    }
}

/// Whether the three numbers name a day of the calendar.
pub open spec fn is_calendar_date(year: int, month: int, day: int) -> bool {
    &&& MIN_YEAR <= year <= MAX_YEAR
    &&& 1 <= month <= 12
    &&& 1 <= day <= days_in_month(year, month)
}

/// Asks `chrono::NaiveDate::from_ymd_opt` whether it accepts the three numbers.
///
/// Trusted: chrono accepts exactly the days of the proleptic Gregorian
/// calendar whose year lies between `MIN_YEAR` and `MAX_YEAR`.
#[verifier::external_body]
fn calendar_accepts(year: i32, month: u32, day: u32) -> (accepted: bool)
    ensures
        accepted == is_calendar_date(year as int, month as int, day as int),
{
    chrono::NaiveDate::from_ymd_opt(year, month, day).is_some()
}

/// A calendar date.
#[derive(Clone, Copy, Debug, PartialEq, Eq, Structural)]
pub struct Date {
    pub year: i32,
    pub month: u32,
    pub day: u32,
}

impl Date {
    /// Whether the date exists in the calendar.
    pub open spec fn is_valid(&self) -> bool {
        is_calendar_date(self.year as int, self.month as int, self.day as int)
    }

    /// The date of the given year, month and day, if there is such a day.
    pub fn from_ymd(year: i32, month: u32, day: u32) -> (date: Option<Date>)
        ensures
            date == (if is_calendar_date(year as int, month as int, day as int) {
                Some(Date { year, month, day })
            } else {
                None
            }),
    {
        if calendar_accepts(year, month, day) {
            Some(Date { year, month, day })
        } else {
            None
        }
    }

    /// The year of the date.
    pub fn year(&self) -> (year: i32)
        ensures
            year == self.year,
    {
        self.year
    }
}

} // verus!
