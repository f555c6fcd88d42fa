//! A skill: a named list of records and the experience they add up to.

use crate::date::Date;
use crate::exp::saturate;
use crate::exp::ExpRules;
use crate::order::date_sorted_from;
use crate::order::lemma_swap_keeps_days;
use crate::order::lemma_swap_keeps_records;
use crate::order::of_day;
use crate::order::sorted_by_date;
use crate::record::SheetActionRecord;
use crate::streak::earned_sum;
use crate::streak::lemma_earned_sum_nonnegative;
use crate::streak::lemma_earned_sum_reads_prefix;
use crate::streak::lemma_first_in_reach_is;
use crate::streak::lemma_share_nonnegative;
use crate::streak::lemma_streak_sum_nonnegative;
use crate::streak::lemma_streak_sum_out_of_reach;
use crate::streak::lemma_streak_sum_reads_prefix;
use crate::streak::potential_bonus;
use crate::streak::same_entries;
use crate::streak::settled;
use crate::streak::settled_at;
use crate::streak::streak_begins;
use crate::streak::streak_sum;
use crate::streak::total_exp;
use vstd::prelude::*;

verus! {

/// A named skill with its records and the experience last computed for it.
///
/// `total_exp` and `potential_bonus` are derived from the records, like the
/// experience held in each record, and are renewed together with it.
#[derive(Debug, PartialEq, Eq)]
pub struct Skill {
    /// The label shown for the skill. It need not be unique.
    pub name: String,
    /// The records of the skill, in the order in which they are read.
    pub records: Vec<SheetActionRecord>,
    /// The bonus that a record logged next would draw, in units.
    pub potential_bonus: u128,
    /// All that the records earned, in units.
    pub total_exp: u128,
}

/// Why a change to the records of a skill was refused.
#[derive(Clone, Copy, Debug, PartialEq, Eq, Structural)]
pub enum RecordError {
    /// There is no record at the given place.
    IndexOutOfRange,
}

/// Sums the shares that the day `day` draws from the records from `start`
/// to `upto`, which are the streak of the day `horizon`.
fn window_bonus(
    rules: &ExpRules,
    records: &Vec<SheetActionRecord>,
    start: usize,
    upto: usize,
    day: i64,
    Ghost(horizon): Ghost<int>,
) -> (bonus: u128)
    requires
        rules.valid(),
        streak_begins(*rules, records@, start as int, upto as int, horizon),
        day <= horizon,
        i32::MIN <= day <= i32::MAX + 1,
    ensures
        bonus == saturate(streak_sum(*rules, records@, upto as int, horizon, day as int)),
{
    let mut bonus: u128 = 0;
    let mut at: usize = start;
    proof {
        lemma_streak_sum_out_of_reach(*rules, records@, start as int, horizon, day as int);
    }
    while at < upto
        invariant
            rules.valid(),
            streak_begins(*rules, records@, start as int, upto as int, horizon),
            day <= horizon,
            i32::MIN <= day <= i32::MAX + 1,
            start <= at <= upto,
            bonus == saturate(streak_sum(*rules, records@, at as int, horizon, day as int)),
        decreases upto - at,
    {
        let earlier = records[at];
        let gap: i64 = day - earlier.date.days as i64;
        let drawn = rules.share_for(earlier.earned_exp(), gap);
        proof {
            lemma_streak_sum_nonnegative(*rules, records@, at as int, horizon, day as int);
            lemma_share_nonnegative(*rules, earlier.earned(), gap as int);
        }
        bonus = bonus.saturating_add(drawn);
        at += 1;
    }
    bonus
}

impl Skill {
    /// Whether `self` is what [`Skill::sort_actions`] makes of `before`: the
    /// same skill with its records sorted by date.
    pub open spec fn sorted_from(self, before: Skill) -> bool {
        &&& date_sorted_from(before.records@, self.records@)
        &&& self.name == before.name
        &&& self.potential_bonus == before.potential_bonus
        &&& self.total_exp == before.total_exp
    }

    /// Whether `self` is what [`Skill::recompute`] makes of `before` under
    /// `rules` on the day `today`: the same entries, with all experience
    /// renewed.
    pub open spec fn recomputed_from(self, before: Skill, rules: ExpRules, today: Date) -> bool {
        &&& self.name == before.name
        &&& same_entries(before.records@, self.records@)
        &&& settled(rules, self.records@)
        &&& self.total_exp == total_exp(self.records@)
        &&& self.potential_bonus == potential_bonus(rules, self.records@, today@)
    }

    /// A skill called `name` with no records and no experience.
    pub fn new(name: String) -> (skill: Skill)
        ensures
            skill.name == name,
            skill.records@ == Seq::<SheetActionRecord>::empty(),
            skill.potential_bonus == 0,
            skill.total_exp == 0,
    {
        Skill { name, records: Vec::new(), potential_bonus: 0, total_exp: 0 }
    }

    /// Appends a record of `duration` minutes on `date` that has earned
    /// nothing yet. The list is neither sorted nor recomputed.
    pub fn add_record(&mut self, date: Date, duration: u64)
        ensures
            final(self).records@ == old(self).records@.push(
                SheetActionRecord { date, duration, base_exp: 0, bonus_exp: 0 },
            ),
            final(self).name == old(self).name,
            final(self).potential_bonus == old(self).potential_bonus,
            final(self).total_exp == old(self).total_exp,
    {
        self.records.push(SheetActionRecord::new(date, duration));
    }

    /// Removes the record at `index` and keeps the others in their order.
    /// Where there is no such record, nothing changes.
    pub fn remove_record(&mut self, index: usize) -> (outcome: Result<(), RecordError>)
        ensures
            outcome is Ok <==> index < old(self).records@.len(),
            outcome is Ok ==> final(self).records@ == old(self).records@.remove(index as int),
            outcome is Err ==> outcome == Err::<(), RecordError>(RecordError::IndexOutOfRange)
                && final(self).records@ == old(self).records@,
            final(self).name == old(self).name,
            final(self).potential_bonus == old(self).potential_bonus,
            final(self).total_exp == old(self).total_exp,
    {
        if index < self.records.len() {
            self.records.remove(index);
            Ok(())
        } else {
            Err(RecordError::IndexOutOfRange)
        }
    }

    /// Whether the records are in ascending order of date.
    pub fn is_sorted_by_date(&self) -> (sorted: bool)
        ensures
            sorted == sorted_by_date(self.records@),
    {
        let count = self.records.len();
        let mut at: usize = 1;
        while at < count
            invariant
                count == self.records.len(),
                1 <= at,
                forall|i: int, j: int|
                    0 <= i <= j < at && j < count ==> self.records@[i].date@
                        <= self.records@[j].date@,
            decreases count - at,
        {
            if self.records[at - 1].date.days > self.records[at].date.days {
                return false;
            }
            at += 1;
        }
        true
    }

    /// Sorts the records by date, ascending. Records of one day keep the
    /// order they had. The experience held in the records and in the skill
    /// is left as it is.
    pub fn sort_actions(&mut self)
        ensures
            date_sorted_from(old(self).records@, final(self).records@),
            final(self).name == old(self).name,
            final(self).potential_bonus == old(self).potential_bonus,
            final(self).total_exp == old(self).total_exp,
    {
        let count = self.records.len();
        let mut done: usize = 0;
        while done < count
            invariant
                count == self.records.len(),
                done <= count,
                self.name == old(self).name,
                self.potential_bonus == old(self).potential_bonus,
                self.total_exp == old(self).total_exp,
                self.records@.to_multiset() == old(self).records@.to_multiset(),
                forall|day: int| #[trigger]
                    of_day(self.records@, day) == of_day(old(self).records@, day),
                forall|i: int, j: int|
                    0 <= i <= j < done ==> self.records@[i].date@ <= self.records@[j].date@,
            decreases count - done,
        {
            let mut at: usize = done;
            while at > 0 && self.records[at - 1].date.days > self.records[at].date.days
                invariant
                    count == self.records.len(),
                    at <= done < count,
                    self.name == old(self).name,
                    self.potential_bonus == old(self).potential_bonus,
                    self.total_exp == old(self).total_exp,
                    self.records@.to_multiset() == old(self).records@.to_multiset(),
                    forall|day: int| #[trigger]
                        of_day(self.records@, day) == of_day(old(self).records@, day),
                    forall|i: int, j: int|
                        0 <= i <= j <= done && i != at && j != at ==> self.records@[i].date@
                            <= self.records@[j].date@,
                    forall|j: int|
                        at < j <= done ==> self.records@[at as int].date@
                            < self.records@[j].date@,
                decreases at,
            {
                let earlier = self.records[at - 1];
                let later = self.records[at];
                let ghost before = self.records@;
                self.records[at - 1] = later;
                self.records[at] = earlier;
                proof {
                    lemma_swap_keeps_records(before, at as int);
                    assert forall|day: int| #[trigger]
                        of_day(self.records@, day) == of_day(old(self).records@, day) by {
                        lemma_swap_keeps_days(before, at as int, day);
                    }
                }
                at -= 1;
            }
            done += 1;
        }
    }

    /// Renews the experience of every record, the total and the forecast,
    /// under `rules` and with `today` as the current day.
    ///
    /// The records must be in ascending order of date. Their entries stay as
    /// they are.
    pub fn recompute(&mut self, rules: &ExpRules, today: Date)
        requires
            rules.valid(),
            sorted_by_date(old(self).records@),
        ensures
            final(self).name == old(self).name,
            same_entries(old(self).records@, final(self).records@),
            sorted_by_date(final(self).records@),
            settled(*rules, final(self).records@),
            final(self).total_exp == total_exp(final(self).records@),
            final(self).potential_bonus == potential_bonus(*rules, final(self).records@, today@),
    {
        let reach: i64 = rules.max_bonus_days as i64;
        let count = self.records.len();
        let mut total: u128 = 0;
        let mut start: usize = 0;
        let mut at: usize = 0;
        while at < count
            invariant
                rules.valid(),
                reach == rules.max_bonus_days,
                count == self.records.len(),
                self.name == old(self).name,
                same_entries(old(self).records@, self.records@),
                sorted_by_date(self.records@),
                at <= count,
                start <= at,
                at > 0 ==> start < at && streak_begins(
                    *rules,
                    self.records@,
                    start as int,
                    at as int,
                    self.records@[at - 1].date@,
                ),
                forall|k: int| 0 <= k < at ==> settled_at(*rules, self.records@, k),
                total == saturate(earned_sum(self.records@, at as int)),
            decreases count - at,
        {
            let date = self.records[at].date;
            let duration = self.records[at].duration;
            while start < at && self.records[start].date.days_until(date) > reach
                invariant
                    reach == rules.max_bonus_days,
                    start <= at < self.records.len(),
                    date == self.records@[at as int].date,
                    forall|k: int|
                        0 <= k < start ==> !rules.in_reach(
                            date@ - (#[trigger] self.records@[k]).date@,
                        ),
                decreases at - start,
            {
                start += 1;
            }
            let bonus = window_bonus(
                rules,
                &self.records,
                start,
                at,
                date.days as i64,
                Ghost(date@),
            );
            let base = rules.base_exp_for(duration);
            let record = SheetActionRecord { date, duration, base_exp: base, bonus_exp: bonus };
            let ghost before = self.records@;
            self.records[at] = record;
            proof {
                let after = self.records@;
                assert forall|k: int| 0 <= k <= at implies settled_at(*rules, after, k) by {
                    lemma_streak_sum_reads_prefix(
                        *rules,
                        before,
                        after,
                        k,
                        after[k].date@,
                        after[k].date@,
                    );
                    if k < at {
                        assert(settled_at(*rules, before, k));
                    }
                }
                lemma_earned_sum_reads_prefix(before, after, at as int);
                lemma_earned_sum_nonnegative(after, at as int);
            }
            total = total.saturating_add(record.earned_exp());
            at += 1;
        }
        self.total_exp = total;

        let mut day: i64 = today.days as i64;
        if count > 0 && self.records[start].date.days == today.days {
            day = day + 1;
        }
        let ghost last = if count > 0 {
            self.records@[count - 1].date@
        } else {
            day as int
        };
        let ghost horizon = if last > day {
            last
        } else {
            day as int
        };
        proof {
            if count > 0 {
                lemma_first_in_reach_is(*rules, self.records@, 0, last, start as int);
            }
        }
        let ghost front = start;
        while start < count && day - self.records[start].date.days as i64 > reach
            invariant
                reach == rules.max_bonus_days,
                count == self.records.len(),
                sorted_by_date(self.records@),
                front <= start <= count,
                i32::MIN <= day <= i32::MAX + 1,
                day <= horizon,
                horizon == last || horizon == day,
                count > 0 ==> streak_begins(
                    *rules,
                    self.records@,
                    front as int,
                    count as int,
                    last,
                ),
                forall|k: int|
                    0 <= k < start ==> !rules.in_reach(
                        horizon - (#[trigger] self.records@[k]).date@,
                    ),
            decreases count - start,
        {
            start += 1;
        }
        self.potential_bonus = window_bonus(
            rules,
            &self.records,
            start,
            count,
            day,
            Ghost(horizon),
        );
    }

    /// Renews the experience of every record, the total and the forecast,
    /// under the standard rules and with the day that the system clock
    /// shows.
    ///
    /// The records must be in ascending order of date. All but the forecast
    /// is fixed by the records; the forecast is that of some current day.
    pub fn calculate_exp(&mut self)
        requires
            sorted_by_date(old(self).records@),
        ensures
            final(self).name == old(self).name,
            same_entries(old(self).records@, final(self).records@),
            sorted_by_date(final(self).records@),
            settled(ExpRules::standard(), final(self).records@),
            final(self).total_exp == total_exp(final(self).records@),
            exists|today: Date|
                final(self).potential_bonus == #[trigger] potential_bonus(
                    ExpRules::standard(),
                    final(self).records@,
                    today@,
                ),
    {
        let rules = ExpRules::standard();
        let today = Date::today();
        self.recompute(&rules, today);
    }

    /// Brings the skill up to date after an edit: sorts the records by date
    /// and then renews all experience under `rules`, with `today` as the
    /// current day.
    pub fn refresh(&mut self, rules: &ExpRules, today: Date)
        requires
            rules.valid(),
        ensures
            exists|sorted: Skill| #[trigger]
                sorted.sorted_from(*old(self)) && final(self).recomputed_from(
                    sorted,
                    *rules,
                    today,
                ),
            sorted_by_date(final(self).records@),
    {
        self.sort_actions();
        let ghost sorted = *self;
        self.recompute(rules, today);
        assert(sorted.sorted_from(*old(self)) && self.recomputed_from(sorted, *rules, today));
    }
}

impl Clone for Skill {
    /// A copy with the same name, records and experience.
    fn clone(&self) -> (copy: Skill)
        ensures
            copy.name == self.name,
            copy.records@ == self.records@,
            copy.potential_bonus == self.potential_bonus,
            copy.total_exp == self.total_exp,
    {
        let records = self.records.clone();
        Skill {
            name: self.name.clone(),
            records,
            potential_bonus: self.potential_bonus,
            total_exp: self.total_exp,
        }
    }
}

impl Default for Skill {
    /// An empty skill under the placeholder name "new skill".
    fn default() -> (skill: Skill)
        ensures
            skill.name@ == "new skill"@,
            skill.records@ == Seq::<SheetActionRecord>::empty(),
            skill.potential_bonus == 0,
            skill.total_exp == 0,
    {
        Skill::new("new skill".to_string())
    }
}

} // verus!
