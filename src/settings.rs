//! The game calendar and the settings that the simulation reads.
use chrono::NaiveDate;
use vstd::prelude::*;
use vstd::string::*;

verus! {

/// A calendar day, counted as chrono counts days from the common era
/// (0001-01-01 is day 1).
#[derive(Debug, Clone, Copy, PartialEq, Eq, Structural)]
pub struct Date {
    pub days_from_ce: i32,
}

/// The `YYYY-MM-DD` text of a day number.
pub uninterp spec fn iso_date(days_from_ce: int) -> Seq<char>;

/// Relies on chrono's `NaiveDate::from_num_days_from_ce_opt` and on
/// `format("%Y-%m-%d")`: the text of the day, or `None` when the day is out of
/// chrono's range (years -262143 to 262142), which holds every day of the
/// years 1 to 9999.
#[verifier::external_body]
fn iso_date_text(days_from_ce: i32) -> (r: Option<String>)
    ensures
        r matches Some(s) ==> s@ == iso_date(days_from_ce as int),
        in_common_years(days_from_ce as int) ==> r is Some,
{
    NaiveDate::from_num_days_from_ce_opt(days_from_ce).map(|d| d.format("%Y-%m-%d").to_string())
}

/// The day is in the years 1 to 9999 (9999-12-31 is day 3,652,059).
pub open spec fn in_common_years(days_from_ce: int) -> bool {
    1 <= days_from_ce <= 3652059
}

pub open spec fn date_text(d: Date) -> Seq<char> {
    iso_date(d.days_from_ce as int)
}

impl Date {
    /// The day as `YYYY-MM-DD`, or `None` outside chrono's calendar.
    pub fn pretty(&self) -> (r: Option<String>)
        ensures
            r matches Some(s) ==> s@ == date_text(*self),
            in_common_years(self.days_from_ce as int) ==> r is Some,
    {
        iso_date_text(self.days_from_ce)
    }

    /// The day after.
    pub fn next(&self) -> (r: Date)
        requires
            self.days_from_ce < i32::MAX,
        ensures
            r.days_from_ce == self.days_from_ce + 1,
    {
        Date { days_from_ce: self.days_from_ce + 1 }
    }
}

pub struct Settings {
    /// Real seconds per simulated day.
    pub day_duration: u32,
    pub current_day: Date,
    pub save_path: String,
    pub config_path: String,
    pub width: usize,
}

} // verus!
