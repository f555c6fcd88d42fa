//! What a list of records earns: the model that a recompute realises.
//!
//! The records of a skill are read in the order of the list, which must be
//! ascending by date. The streak of a day is made of the earlier records that
//! lie within reach of it. A record draws a share from each record of its
//! day's streak, and the share is taken from all that the earlier record
//! earned, its own bonus included.

use crate::exp::saturate;
use crate::exp::ExpRules;
use crate::record::SheetActionRecord;
use vstd::prelude::*;

verus! {

/// Whether two lists log the same entries in the same order.
pub open spec fn same_entries(a: Seq<SheetActionRecord>, b: Seq<SheetActionRecord>) -> bool {
    &&& a.len() == b.len()
    &&& forall|i: int| 0 <= i < a.len() ==> (#[trigger] a[i]).same_entry(b[i])
}

/// The sum of the shares that the day `date` draws from the first `upto`
/// records, counting those that lie within reach of the day `horizon`.
pub open spec fn streak_sum(
    rules: ExpRules,
    records: Seq<SheetActionRecord>,
    upto: int,
    horizon: int,
    date: int,
) -> int
    decreases upto,
{
    if upto <= 0 {
        0
    } else {
        let earlier = records[upto - 1];
        let drawn = if rules.in_reach(horizon - earlier.date@) {
            rules.share(earlier.earned(), date - earlier.date@)
        } else {
            0
        };
        streak_sum(rules, records, upto - 1, horizon, date) + drawn
    }
}

/// The streak bonus of the record at `at`: what its day draws from the
/// records before it that lie within reach of that day.
pub open spec fn streak_bonus(rules: ExpRules, records: Seq<SheetActionRecord>, at: int) -> int {
    saturate(streak_sum(rules, records, at, records[at].date@, records[at].date@))
}

/// Whether the record at `at` holds what it earns.
pub open spec fn settled_at(rules: ExpRules, records: Seq<SheetActionRecord>, at: int) -> bool {
    &&& records[at].base_exp == rules.base_exp(records[at].duration)
    &&& records[at].bonus_exp == streak_bonus(rules, records, at)
}

/// Whether every record holds what it earns.
pub open spec fn settled(rules: ExpRules, records: Seq<SheetActionRecord>) -> bool {
    forall|at: int| 0 <= at < records.len() ==> #[trigger] settled_at(rules, records, at)
}

/// The sum of all that the first `upto` records earned.
pub open spec fn earned_sum(records: Seq<SheetActionRecord>, upto: int) -> int
    decreases upto,
{
    if upto <= 0 {
        0
    } else {
        earned_sum(records, upto - 1) + records[upto - 1].earned()
    }
}

/// The experience of the whole list, as it is held.
pub open spec fn total_exp(records: Seq<SheetActionRecord>) -> int {
    saturate(earned_sum(records, records.len() as int))
}

/// The first record at or after `from` that lies within reach of the day
/// `horizon`, or the length of the list where there is none.
pub open spec fn first_in_reach(
    rules: ExpRules,
    records: Seq<SheetActionRecord>,
    from: int,
    horizon: int,
) -> int
    decreases records.len() - from,
{
    if from >= records.len() {
        records.len() as int
    } else if from >= 0 && rules.in_reach(horizon - records[from].date@) {
        from
    } else {
        first_in_reach(rules, records, from + 1, horizon)
    }
}

/// The record with which the streak of the last record begins: the first
/// that lies within reach of the day of the last.
pub open spec fn streak_front(
    rules: ExpRules,
    records: Seq<SheetActionRecord>,
) -> SheetActionRecord
    recommends
        records.len() > 0,
{
    records[first_in_reach(rules, records, 0, records.last().date@)]
}

/// The day for which the next record is forecast: `today`, or the day after
/// where the streak of the last record begins with a record of `today`.
pub open spec fn forecast_date(
    rules: ExpRules,
    records: Seq<SheetActionRecord>,
    today: int,
) -> int {
    if records.len() > 0 && streak_front(rules, records).date@ == today {
        today + 1
    } else {
        today
    }
}

/// The later of the forecast day and the day of the last record.
pub open spec fn forecast_horizon(
    rules: ExpRules,
    records: Seq<SheetActionRecord>,
    today: int,
) -> int {
    let day = forecast_date(rules, records, today);
    if records.len() > 0 && records.last().date@ > day {
        records.last().date@
    } else {
        day
    }
}

/// The bonus that a new record would draw on the forecast day: a share from
/// each record that lies within reach both of the last record and of that
/// day.
pub open spec fn potential_bonus(
    rules: ExpRules,
    records: Seq<SheetActionRecord>,
    today: int,
) -> int {
    saturate(
        streak_sum(
            rules,
            records,
            records.len() as int,
            forecast_horizon(rules, records, today),
            forecast_date(rules, records, today),
        ),
    )
}

/// Whether the streak of the day `horizon` among the first `upto` records is
/// the run from `start` on: every record before `start` is out of reach of
/// that day, and every record from `start` to `upto` is within it.
pub open spec fn streak_begins(
    rules: ExpRules,
    records: Seq<SheetActionRecord>,
    start: int,
    upto: int,
    horizon: int,
) -> bool {
    &&& 0 <= start <= upto <= records.len()
    &&& forall|k: int| 0 <= k < start ==> !rules.in_reach(horizon - (#[trigger] records[k]).date@)
    &&& forall|k: int|
        start <= k < upto ==> rules.in_reach(horizon - (#[trigger] records[k]).date@)
}

/// A share within reach is never negative.
pub proof fn lemma_share_nonnegative(rules: ExpRules, earned: int, gap: int)
    requires
        rules.valid(),
        rules.in_reach(gap),
        0 <= earned,
    ensures
        0 <= rules.share(earned, gap),
{
    let numerator = earned * (rules.streak_max_daily_bonus_percent * (rules.max_bonus_days - gap));
    let denominator = 100 * rules.max_bonus_days;
    assert(0 <= numerator) by (nonlinear_arith)
        requires
            numerator == earned * (rules.streak_max_daily_bonus_percent * (rules.max_bonus_days
                - gap)),
            0 <= earned,
            0 <= rules.streak_max_daily_bonus_percent,
            gap <= rules.max_bonus_days,
    ;
    assert(0 <= numerator / denominator) by (nonlinear_arith)
        requires
            0 <= numerator,
            0 < denominator,
    ;
}

/// A streak sum is never negative where the drawing day is not past the
/// horizon.
pub proof fn lemma_streak_sum_nonnegative(
    rules: ExpRules,
    records: Seq<SheetActionRecord>,
    upto: int,
    horizon: int,
    date: int,
)
    requires
        rules.valid(),
        upto <= records.len(),
        date <= horizon,
    ensures
        0 <= streak_sum(rules, records, upto, horizon, date),
    decreases upto,
{
    if upto > 0 {
        lemma_streak_sum_nonnegative(rules, records, upto - 1, horizon, date);
        let earlier = records[upto - 1];
        if rules.in_reach(horizon - earlier.date@) {
            lemma_share_nonnegative(rules, earlier.earned(), date - earlier.date@);
        }
    }
}

/// A streak sum reads only the records that it counts: lists that agree on
/// the first `upto` records have the same sum.
pub proof fn lemma_streak_sum_reads_prefix(
    rules: ExpRules,
    a: Seq<SheetActionRecord>,
    b: Seq<SheetActionRecord>,
    upto: int,
    horizon: int,
    date: int,
)
    requires
        upto <= a.len(),
        upto <= b.len(),
        forall|k: int| 0 <= k < upto ==> a[k] == b[k],
    ensures
        streak_sum(rules, a, upto, horizon, date) == streak_sum(rules, b, upto, horizon, date),
    decreases upto,
{
    if upto > 0 {
        lemma_streak_sum_reads_prefix(rules, a, b, upto - 1, horizon, date);
    }
}

/// Records out of reach of the horizon add nothing.
pub proof fn lemma_streak_sum_out_of_reach(
    rules: ExpRules,
    records: Seq<SheetActionRecord>,
    upto: int,
    horizon: int,
    date: int,
)
    requires
        upto <= records.len(),
        forall|k: int| 0 <= k < upto ==> !rules.in_reach(horizon - (#[trigger] records[k]).date@),
    ensures
        streak_sum(rules, records, upto, horizon, date) == 0,
    decreases upto,
{
    if upto > 0 {
        lemma_streak_sum_out_of_reach(rules, records, upto - 1, horizon, date);
    }
}

/// The sum of what records earned reads only the records that it counts.
pub proof fn lemma_earned_sum_reads_prefix(
    a: Seq<SheetActionRecord>,
    b: Seq<SheetActionRecord>,
    upto: int,
)
    requires
        upto <= a.len(),
        upto <= b.len(),
        forall|k: int| 0 <= k < upto ==> a[k] == b[k],
    ensures
        earned_sum(a, upto) == earned_sum(b, upto),
    decreases upto,
{
    if upto > 0 {
        lemma_earned_sum_reads_prefix(a, b, upto - 1);
    }
}

/// The sum of what records earned is never negative.
pub proof fn lemma_earned_sum_nonnegative(records: Seq<SheetActionRecord>, upto: int)
    requires
        upto <= records.len(),
    ensures
        0 <= earned_sum(records, upto),
    decreases upto,
{
    if upto > 0 {
        lemma_earned_sum_nonnegative(records, upto - 1);
    }
}

/// Where every record before `start` is out of reach of the horizon and the
/// record at `start` is within it, the search from any earlier place ends at
/// `start`.
pub proof fn lemma_first_in_reach_is(
    rules: ExpRules,
    records: Seq<SheetActionRecord>,
    from: int,
    horizon: int,
    start: int,
)
    requires
        0 <= from <= start < records.len(),
        forall|k: int| 0 <= k < start ==> !rules.in_reach(horizon - (#[trigger] records[k]).date@),
        rules.in_reach(horizon - records[start].date@),
    ensures
        first_in_reach(rules, records, from, horizon) == start,
    decreases start - from,
{
    if from < start {
        lemma_first_in_reach_is(rules, records, from + 1, horizon, start);
    }
}

} // verus!
