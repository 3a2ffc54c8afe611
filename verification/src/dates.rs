//! Calendar dates as plain numbers, and the text-to-date collaborator.

use vstd::prelude::*;
use std::str::FromStr;
use chrono::Datelike;

verus! {

/// A calendar date as plain numbers: year of the common era, month of the
/// year in `1..=12`, day of the month in `1..=31`.
#[derive(Clone, Copy, Debug, PartialEq, Eq, Structural)]
pub struct Date {
    pub year: u32,
    pub month: u32,
    pub day: u32,
}

impl Date {
    /// The month and day lie in their calendar ranges.
    pub open spec fn wf(self) -> bool {
        1 <= self.month <= 12 && 1 <= self.day <= 31
    }
}

/// What the date collaborator returns for a given text token:
/// `None` where the token is not a date, else the (year, month, day) triple.
pub uninterp spec fn date_of_str(s: Seq<char>) -> Option<(u32, u32, u32)>;

/// Relies on `chrono::NaiveDate::from_str` (ISO 8601 date parsing) and the
/// `Datelike` accessors `year_ce`, `month` and `day`: the result is a function
/// of the text alone, and a date that parses has its month in `1..=12` and
/// its day in `1..=31`.
#[verifier::external_body]
pub fn parse_date(s: &str) -> (r: Option<Date>)
    ensures
        r is Some <==> date_of_str(s@) is Some,
        r matches Some(d) ==> date_of_str(s@) == Some((d.year, d.month, d.day)) && d.wf(),
{
    match chrono::NaiveDate::from_str(s) {
        Ok(nd) => {
            let (_ce, year) = nd.year_ce();
            Some(Date { year, month: nd.month(), day: nd.day() })
        }
        Err(_) => None,
    }
}

} // verus!
