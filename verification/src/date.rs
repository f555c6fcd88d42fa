//! Calendar days as day numbers.

use vstd::prelude::*;

verus! {

/// A calendar day without a time of day.
///
/// The day is held as its number in the proleptic Gregorian calendar, where
/// 1 January of the year 1 is day 1. Consecutive days have consecutive
/// numbers, so the distance between two days is the difference of their
/// numbers.
#[derive(Clone, Copy, Debug, PartialEq, Eq, Structural)]
pub struct Date {
    pub days: i32,
}

impl View for Date {
    type V = int;

    open spec fn view(&self) -> int {
        self.days as int
    }
}

impl Date {
    /// The day with the given number.
    pub fn from_days(days: i32) -> (day: Date)
        ensures
            day@ == days,
    {
        Date { days }
    }

    /// The number of days from `self` to `later`; negative where `later`
    /// comes first.
    pub fn days_until(self, later: Date) -> (gap: i64)
        ensures
            gap == later@ - self@,
    {
        later.days as i64 - self.days as i64
    }

    /// Today's date in UTC, read from the system clock.
    ///
    /// Calls `chrono::Utc::now`, takes the date of that moment and counts its
    /// days with `chrono::Datelike::num_days_from_ce`. Nothing is promised of
    /// the day that comes back. chrono panics where the clock stands before
    /// 1970.
    #[verifier::external_body]
    pub(crate) fn today() -> (day: Date) {
        Date { days: chrono::Datelike::num_days_from_ce(&chrono::Utc::now().naive_local().date()) }
    }
}

} // verus!
