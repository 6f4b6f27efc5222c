//! Calendar dates of leave intervals.

use chrono::Datelike;
use chrono::NaiveDate;
use vstd::prelude::*;

verus! {

/// A calendar date, held as the number of its day in the proleptic Gregorian
/// calendar: 1 January of the year 1 is day 1, and each later day counts one
/// more.
#[derive(Clone, Copy, Debug, PartialEq, Eq, Structural)]
pub struct Date {
    pub day_number: i32,
}

/// The day number of the date that `text` writes as day, month and year with
/// `-` between them, as chrono reads it; nothing where chrono reads no date
/// from `text`.
pub uninterp spec fn day_month_year_day_number(text: Seq<char>) -> Option<i32>;

/// Calls chrono's `NaiveDate::parse_from_str` on `text` with the format
/// `%d-%m-%Y` and hands the date out as its `num_days_from_ce`. The contract
/// claims that the outcome depends on the characters of `text` alone, and
/// that the word `None` is no date: chrono wants a digit where the day
/// stands. Which other texts are dates, and which day each of them is, is
/// chrono's to say.
#[verifier::external_body]
fn read_day_number(text: &str) -> (r: Option<i32>)
    ensures
        r == day_month_year_day_number(text@),
        text@ == "None"@ ==> r is None,
{
    match NaiveDate::parse_from_str(text, "%d-%m-%Y") {
        Ok(date) => Some(date.num_days_from_ce()),
        Err(_) => None,
    }
}

/// The date that `text` writes as day, month and year.
pub open spec fn date_of_text(text: Seq<char>) -> Option<Date> {
    date_of_day_number(day_month_year_day_number(text))
}

/// The date of a day number that was read, if one was.
pub open spec fn date_of_day_number(read: Option<i32>) -> Option<Date> {
    match read {
        Some(day_number) => Some(Date { day_number }),
        None => None,
    }
}

impl Date {
    /// The date whose day has the number `day_number`.
    pub fn from_day_number(day_number: i32) -> (date: Date)
        ensures
            date.day_number == day_number,
    {
        Date { day_number }
    }

    /// The date of a day number that was read, if one was.
    pub fn from_read(read: Option<i32>) -> (date: Option<Date>)
        ensures
            date == date_of_day_number(read),
    {
        match read {
            Some(day_number) => Some(Date { day_number }),
            None => None,
        }
    }

    /// Reads a date written as day, month and year with `-` between them,
    /// such as `03-06-2024`.
    pub fn parse(text: &str) -> (date: Option<Date>)
        ensures
            date == date_of_text(text@),
            text@ == "None"@ ==> date is None,
    {
        Date::from_read(read_day_number(text))
    }

    /// The number of days from `self` to `other`: negative where `other` is
    /// the earlier date.
    pub open spec fn days_until(self, other: Date) -> int {
        other.day_number - self.day_number
    }

    /// The number of days from `self` to `other`.
    pub fn days_to(&self, other: &Date) -> (days: i64)
        ensures
            days == self.days_until(*other),
    {
        other.day_number as i64 - self.day_number as i64
    }
}

} // verus!
