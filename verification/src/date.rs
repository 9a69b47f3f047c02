//! Calendar dates held as a count of days, with chrono doing the calendar work.
use vstd::prelude::*;
use chrono::{Datelike, NaiveDate};

verus! {

/// A calendar date, held as the number of days since 1 January of year 1 (that day is 1),
/// counted in the proleptic Gregorian calendar as `chrono::Datelike::num_days_from_ce` does.
///
/// Dates order and subtract as their day counts do.
#[derive(Clone, Copy, Debug, PartialEq, Eq, Structural, Hash)]
pub struct DueDate {
    pub days_from_ce: i32,
}

/// The day count that chrono gives the date `year`-`month`-`day`, or `None` when there is no
/// such date.
pub uninterp spec fn chrono_days_of_ymd(year: i32, month: u32, day: u32) -> Option<i32>;

/// The day count of the date that chrono reads from `text` with the `format` pattern, or
/// `None` when chrono refuses the text.
pub uninterp spec fn chrono_parse_date(text: Seq<char>, format: Seq<char>) -> Option<i32>;

/// Calls `chrono::NaiveDate::from_ymd_opt` and turns the date into its day count with
/// `Datelike::num_days_from_ce`. The contract claims only that the result is chrono's,
/// under a name: which triples are dates, and their counts, are chrono's calendar.
#[verifier::external_body]
fn days_of_ymd(year: i32, month: u32, day: u32) -> (r: Option<i32>)
    ensures
        r == chrono_days_of_ymd(year, month, day),
{
    match NaiveDate::from_ymd_opt(year, month, day) {
        Some(date) => Some(date.num_days_from_ce()),
        None => None,
    }
}

/// Calls `chrono::NaiveDate::parse_from_str(text, format)` and turns the date into its day
/// count with `Datelike::num_days_from_ce`; a parse error becomes `None`. The contract claims
/// only that the result is chrono's, under a name.
#[verifier::external_body]
fn parse_date(text: &str, format: &str) -> (r: Option<i32>)
    ensures
        r == chrono_parse_date(text@, format@),
{
    match NaiveDate::parse_from_str(text, format) {
        Ok(date) => Some(date.num_days_from_ce()),
        Err(_) => None,
    }
}

/// The text that chrono's `Display` gives the date with day count `days` (`YYYY-MM-DD`), or
/// the empty text when chrono's calendar cannot hold that day.
pub uninterp spec fn chrono_iso_text(days: i32) -> Seq<char>;

/// The year, month and day that chrono gives the day count `days`, or `None` when chrono's
/// calendar cannot hold that day.
pub uninterp spec fn chrono_ymd_of_days(days: i32) -> Option<(i32, u32, u32)>;

/// Calls `chrono::NaiveDate::from_num_days_from_ce_opt` and formats the date with its
/// `Display`. The contract claims only that the text is chrono's, under a name.
#[verifier::external_body]
fn iso_text_of_days(days: i32) -> (r: String)
    ensures
        r@ == chrono_iso_text(days),
{
    match NaiveDate::from_num_days_from_ce_opt(days) {
        Some(date) => date.to_string(),
        None => String::new(),
    }
}

/// Calls `chrono::NaiveDate::from_num_days_from_ce_opt` and reads the date's year, month
/// and day. The contract claims only that they are chrono's, under a name.
#[verifier::external_body]
fn ymd_of_days(days: i32) -> (r: Option<(i32, u32, u32)>)
    ensures
        r == chrono_ymd_of_days(days),
{
    match NaiveDate::from_num_days_from_ce_opt(days) {
        Some(date) => Some((date.year(), date.month(), date.day())),
        None => None,
    }
}

impl DueDate {
    /// The date `year`-`month`-`day`, or `None` when the calendar has no such day.
    pub fn from_ymd(year: i32, month: u32, day: u32) -> (r: Option<DueDate>)
        ensures
            r == (match chrono_days_of_ymd(year, month, day) {
                Some(days) => Some(DueDate { days_from_ce: days }),
                None => None,
            }),
    {
        match days_of_ymd(year, month, day) {
            Some(days) => Some(DueDate { days_from_ce: days }),
            None => None,
        }
    }

    /// The date that is `days` days after 31 December of year 0.
    pub fn from_days_from_ce(days: i32) -> (r: DueDate)
        ensures
            r.days_from_ce == days,
    {
        DueDate { days_from_ce: days }
    }

    /// The number of days since 31 December of year 0.
    pub fn days_from_ce(&self) -> (r: i32)
        ensures
            r == self.days_from_ce,
    {
        self.days_from_ce
    }

    /// The date as chrono writes it, `YYYY-MM-DD`.
    pub fn iso_text(&self) -> (r: String)
        ensures
            r@ == chrono_iso_text(self.days_from_ce),
    {
        iso_text_of_days(self.days_from_ce)
    }

    /// The year, month and day of the date, when chrono's calendar holds it.
    pub fn ymd(&self) -> (r: Option<(i32, u32, u32)>)
        ensures
            r == chrono_ymd_of_days(self.days_from_ce),
    {
        ymd_of_days(self.days_from_ce)
    }
}

/// Reads `text` as a date in the `YYYY-MM-DD` form, as chrono reads it.
pub fn parse_iso_date(text: &str) -> (r: Option<DueDate>)
    ensures
        r == (match chrono_parse_date(text@, "%Y-%m-%d"@) {
            Some(days) => Some(DueDate { days_from_ce: days }),
            None => None,
        }),
{
    match parse_date(text, "%Y-%m-%d") {
        Some(days) => Some(DueDate { days_from_ce: days }),
        None => None,
    }
}

} // verus!
