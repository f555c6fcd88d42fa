//! One logged activity.

use crate::date::Date;
use crate::exp::saturate;
use vstd::prelude::*;

verus! {

/// A record of time spent on a skill on one day, with the experience it
/// earned when the skill was last recomputed.
///
/// `date` and `duration` are the entry that the user logs. `base_exp` and
/// `bonus_exp` are derived from the entries of the whole skill; they go stale
/// when an entry changes and are only renewed by a recompute.
#[derive(Clone, Copy, Debug, PartialEq, Eq, Structural)]
pub struct SheetActionRecord {
    /// The day of the activity.
    pub date: Date,
    /// Minutes spent.
    pub duration: u64,
    /// Experience earned by the duration alone, in units.
    pub base_exp: u128,
    /// Experience drawn from the streak, in units.
    pub bonus_exp: u128,
}

impl SheetActionRecord {
    /// A record of `duration` minutes on `date` that has earned nothing yet.
    pub fn new(date: Date, duration: u64) -> (record: SheetActionRecord)
        ensures
            record == (SheetActionRecord { date, duration, base_exp: 0, bonus_exp: 0 }),
    {
        SheetActionRecord { date, duration, base_exp: 0, bonus_exp: 0 }
    }

    /// All that the record earned: base and bonus together, as it is held.
    pub open spec fn earned(self) -> int {
        saturate(self.base_exp + self.bonus_exp)
    }

    /// Computes all that the record earned.
    pub fn earned_exp(&self) -> (units: u128)
        ensures
            units == self.earned(),
    {
        self.base_exp.saturating_add(self.bonus_exp)
    }

    /// Whether two records log the same entry: the same minutes on the same
    /// day.
    pub open spec fn same_entry(self, other: SheetActionRecord) -> bool {
        self.date == other.date && self.duration == other.duration
    }
}

impl Default for SheetActionRecord {
    /// An empty record dated today by the system clock.
    fn default() -> (record: SheetActionRecord)
        ensures
            record.duration == 0,
            record.base_exp == 0,
            record.bonus_exp == 0,
    {
        SheetActionRecord { date: Date::today(), duration: 0, base_exp: 0, bonus_exp: 0 }
    }
}

} // verus!
