//! What holds of every skill that was sorted and recomputed.

use crate::date::Date;
use crate::exp::EXP_MAX;
use crate::exp::ExpRules;
use crate::exp::MINUTES_PER_HOUR;
use crate::exp::UNITS_PER_EXP;
use crate::exp::saturate;
use crate::order::sorted_by_date;
use crate::record::SheetActionRecord;
use crate::skill::Skill;
use crate::streak::earned_sum;
use crate::streak::first_in_reach;
use crate::streak::forecast_date;
use crate::streak::lemma_share_nonnegative;
use crate::streak::lemma_streak_sum_reads_prefix;
use crate::streak::potential_bonus;
use crate::streak::same_entries;
use crate::streak::settled;
use crate::streak::settled_at;
use crate::streak::streak_sum;
use crate::streak::total_exp;
use vstd::arithmetic::div_mod::lemma_div_is_ordered;
use vstd::arithmetic::div_mod::lemma_fundamental_div_mod;
use vstd::arithmetic::div_mod::lemma_hoist_over_denominator;
use vstd::arithmetic::div_mod::lemma_mod_bound;
use vstd::prelude::*;

verus! {

/// Whether the day of a record fixes its minutes: records of one day log
/// the same duration.
pub open spec fn day_fixes_duration(records: Seq<SheetActionRecord>) -> bool {
    forall|i: int, j: int|
        0 <= i < records.len() && 0 <= j < records.len() && records[i].date@ == records[j].date@
            ==> records[i].duration == records[j].duration
}

/// A record with none before it draws no bonus: a lone record earns its
/// base experience, a sixtieth of the hourly rate for each minute, and that
/// is the total of its skill.
pub proof fn lone_record_earns_base_only(rules: ExpRules, records: Seq<SheetActionRecord>)
    requires
        records.len() == 1,
        settled(rules, records),
    ensures
        records[0].bonus_exp == 0,
        records[0].base_exp * MINUTES_PER_HOUR == records[0].duration * rules.exp_per_hour
            * UNITS_PER_EXP,
        total_exp(records) == records[0].base_exp,
{
    assert(settled_at(rules, records, 0));
    reveal_with_fuel(earned_sum, 2);
}

/// A skill without records has earned nothing and has nothing to draw
/// from, whatever the day.
pub proof fn empty_list_earns_nothing(rules: ExpRules, today: int)
    ensures
        settled(rules, Seq::<SheetActionRecord>::empty()),
        total_exp(Seq::<SheetActionRecord>::empty()) == 0,
        potential_bonus(rules, Seq::<SheetActionRecord>::empty(), today) == 0,
{
}

/// A lone record of today is forecast for tomorrow: the next record would
/// draw from it at a distance of one day, not on the same day.
pub proof fn lone_record_of_today_is_forecast_for_tomorrow(
    rules: ExpRules,
    records: Seq<SheetActionRecord>,
)
    requires
        rules.valid(),
        records.len() == 1,
    ensures
        forecast_date(rules, records, records[0].date@) == records[0].date@ + 1,
        potential_bonus(rules, records, records[0].date@) == saturate(
            rules.share(records[0].earned(), 1),
        ),
{
    reveal_with_fuel(first_in_reach, 2);
    reveal_with_fuel(streak_sum, 2);
}

/// The share is the exact share rounded down: it is the largest number of
/// units that, taken `100 * max_bonus_days` times, does not pass what was
/// earned times the percent and the days left.
pub proof fn share_is_rounded_down(rules: ExpRules, earned: int, gap: int)
    requires
        rules.valid(),
    ensures
        rules.share(earned, gap) * (100 * rules.max_bonus_days) <= earned * (
        rules.streak_max_daily_bonus_percent * (rules.max_bonus_days - gap)),
        earned * (rules.streak_max_daily_bonus_percent * (rules.max_bonus_days - gap)) < (
        rules.share(earned, gap) + 1) * (100 * rules.max_bonus_days),
{
    let exact = earned * (rules.streak_max_daily_bonus_percent * (rules.max_bonus_days - gap));
    let step = 100 * rules.max_bonus_days;
    lemma_fundamental_div_mod(exact, step);
    lemma_mod_bound(exact, step);
    assert((exact / step + 1) * step == step * (exact / step) + step) by (nonlinear_arith);
    assert((exact / step) * step == step * (exact / step)) by (nonlinear_arith);
}

/// In a sorted list the streak of a day is a run: once a record lies within
/// reach of the day, so does every record after it. A streak therefore only
/// ever loses records at its old end.
pub proof fn streak_is_a_run(
    rules: ExpRules,
    records: Seq<SheetActionRecord>,
    earlier: int,
    later: int,
    day: int,
)
    requires
        sorted_by_date(records),
        0 <= earlier <= later < records.len(),
        rules.in_reach(day - records[earlier].date@),
    ensures
        rules.in_reach(day - records[later].date@),
{
}

/// The share ends at the limit: a record exactly `max_bonus_days` back is
/// still within reach, but what it gives is nothing, whatever it earned; a
/// record one day further back is out of reach.
pub proof fn share_is_nothing_at_the_limit(rules: ExpRules, earned: int)
    requires
        rules.valid(),
    ensures
        rules.in_reach(rules.max_bonus_days as int),
        rules.share(earned, rules.max_bonus_days as int) == 0,
        !rules.in_reach(rules.max_bonus_days + 1),
{
    let days_left = rules.max_bonus_days - rules.max_bonus_days as int;
    assert(earned * (rules.streak_max_daily_bonus_percent * days_left) == 0) by (nonlinear_arith)
        requires
            days_left == 0,
    ;
}

/// Of two records in order of date, the later draws nothing from the
/// earlier where they lie `max_bonus_days` apart or further.
pub proof fn second_record_at_the_limit_draws_nothing(
    rules: ExpRules,
    records: Seq<SheetActionRecord>,
)
    requires
        rules.valid(),
        records.len() == 2,
        settled(rules, records),
        records[1].date@ - records[0].date@ >= rules.max_bonus_days,
    ensures
        records[1].bonus_exp == 0,
{
    assert(settled_at(rules, records, 1));
    reveal_with_fuel(streak_sum, 2);
    share_is_nothing_at_the_limit(rules, records[0].earned());
}

/// The share falls with the distance: from the same earned experience, a
/// record further back never gives more than a nearer one.
pub proof fn share_falls_with_distance(rules: ExpRules, earned: int, near: int, far: int)
    requires
        rules.valid(),
        0 <= earned,
        near <= far,
    ensures
        rules.share(earned, far) <= rules.share(earned, near),
{
    let percent = rules.streak_max_daily_bonus_percent as int;
    let limit = rules.max_bonus_days as int;
    assert(earned * (percent * (limit - far)) <= earned * (percent * (limit - near)))
        by (nonlinear_arith)
        requires
            0 <= earned,
            0 <= percent,
            near <= far,
    ;
    lemma_div_is_ordered(
        earned * (percent * (limit - far)),
        earned * (percent * (limit - near)),
        100 * limit,
    );
}

/// The share falls strictly with the distance as soon as one daily step of
/// it makes a unit: then, of any two distances up to the limit, the nearer
/// gives more.
///
/// Below that amount the shares at two distances can be rounded down to the
/// same number of units.
pub proof fn share_falls_strictly_with_distance(rules: ExpRules, earned: int)
    requires
        rules.valid(),
        earned * rules.streak_max_daily_bonus_percent >= 100 * rules.max_bonus_days,
    ensures
        forall|near: int, far: int|
            near < far <= rules.max_bonus_days ==> #[trigger] rules.share(earned, far)
                < #[trigger] rules.share(earned, near),
{
    let percent = rules.streak_max_daily_bonus_percent as int;
    let limit = rules.max_bonus_days as int;
    let step = 100 * limit;
    assert forall|near: int, far: int| near < far <= limit implies #[trigger] rules.share(
        earned,
        far,
    ) < #[trigger] rules.share(earned, near) by {
        let above = earned * (percent * (limit - near));
        let below = earned * (percent * (limit - far));
        let daily = earned * percent;
        assert(below + 1 * step <= above) by (nonlinear_arith)
            requires
                above == earned * (percent * (limit - near)),
                below == earned * (percent * (limit - far)),
                daily == earned * percent,
                daily >= step,
                step > 0,
                far - near >= 1,
        ;
        lemma_hoist_over_denominator(below, 1, step as nat);
        lemma_div_is_ordered(below + 1 * step, above, step);
    }
}

/// Of two lists of two records each that differ only in the distance
/// between the two, the second record of the nearer pair draws the larger
/// bonus, as soon as one daily step of the share makes a unit and the
/// smaller bonus is not already the largest amount that can be held.
pub proof fn nearer_second_record_draws_more(
    rules: ExpRules,
    near: Seq<SheetActionRecord>,
    far: Seq<SheetActionRecord>,
)
    requires
        rules.valid(),
        near.len() == 2,
        far.len() == 2,
        settled(rules, near),
        settled(rules, far),
        near[0].duration == far[0].duration,
        near[1].date@ - near[0].date@ < far[1].date@ - far[0].date@ <= rules.max_bonus_days,
        near[0].earned() * rules.streak_max_daily_bonus_percent >= 100 * rules.max_bonus_days,
        far[1].bonus_exp < EXP_MAX,
    ensures
        far[1].bonus_exp < near[1].bonus_exp,
{
    assert(settled_at(rules, near, 0));
    assert(settled_at(rules, near, 1));
    assert(settled_at(rules, far, 0));
    assert(settled_at(rules, far, 1));
    reveal_with_fuel(streak_sum, 2);
    share_falls_strictly_with_distance(rules, near[0].earned());
}

/// The share grows with what was earned: within reach, a record that
/// earned more never gives less.
pub proof fn share_grows_with_what_was_earned(rules: ExpRules, less: int, more: int, gap: int)
    requires
        rules.valid(),
        rules.in_reach(gap),
        less <= more,
    ensures
        rules.share(less, gap) <= rules.share(more, gap),
{
    let factor = rules.streak_max_daily_bonus_percent * (rules.max_bonus_days - gap);
    assert(less * factor <= more * factor) by (nonlinear_arith)
        requires
            less <= more,
            0 <= factor,
    ;
    lemma_div_is_ordered(less * factor, more * factor, 100 * rules.max_bonus_days);
}

/// A streak never lowers the bonus. Under any valid rules, of three records
/// of the same duration on three consecutive days the first draws nothing,
/// and neither of the others draws less than the one before it.
pub proof fn three_day_streak_does_not_fall(rules: ExpRules, records: Seq<SheetActionRecord>)
    requires
        rules.valid(),
        records.len() == 3,
        settled(rules, records),
        records[1].duration == records[0].duration,
        records[2].duration == records[0].duration,
        records[1].date@ == records[0].date@ + 1,
        records[2].date@ == records[1].date@ + 1,
    ensures
        records[0].bonus_exp == 0,
        records[1].bonus_exp <= records[2].bonus_exp,
{
    assert(settled_at(rules, records, 0));
    assert(settled_at(rules, records, 1));
    assert(settled_at(rules, records, 2));
    reveal_with_fuel(streak_sum, 3);
    share_grows_with_what_was_earned(rules, records[0].earned(), records[1].earned(), 1);
    if rules.in_reach(2) {
        lemma_share_nonnegative(rules, records[0].earned(), 2);
    }
}

/// A streak compounds. Under the standard rules, three records of the same
/// duration on three consecutive days draw a bonus that grows from record
/// to record: the first draws none, the second draws from the first, and
/// the third draws from the second's bonus as well.
pub proof fn three_day_streak_compounds(records: Seq<SheetActionRecord>)
    requires
        records.len() == 3,
        settled(ExpRules::standard(), records),
        records[0].duration > 0,
        records[1].duration == records[0].duration,
        records[2].duration == records[0].duration,
        records[1].date@ == records[0].date@ + 1,
        records[2].date@ == records[1].date@ + 1,
    ensures
        records[0].bonus_exp == 0,
        records[0].bonus_exp < records[1].bonus_exp < records[2].bonus_exp,
        records[1].bonus_exp == 22_000 * records[0].duration,
        records[2].bonus_exp == 47_300 * records[0].duration,
{
    let rules = ExpRules::standard();
    let minutes = records[0].duration as int;
    assert(settled_at(rules, records, 0));
    assert(settled_at(rules, records, 1));
    assert(settled_at(rules, records, 2));
    reveal_with_fuel(streak_sum, 3);
    lemma_standard_share(55_000 * minutes, 1);
    lemma_standard_share(77_000 * minutes, 1);
    lemma_standard_share(55_000 * minutes, 2);
    assert(55_000 * minutes * (50 * (5 - 1)) == 11_000_000 * minutes) by (nonlinear_arith);
    assert(77_000 * minutes * (50 * (5 - 1)) == 15_400_000 * minutes) by (nonlinear_arith);
    assert(55_000 * minutes * (50 * (5 - 2)) == 8_250_000 * minutes) by (nonlinear_arith);
}

/// Under the standard rules the share is a tenth of what was earned for
/// each day that is left of the five.
proof fn lemma_standard_share(earned: int, gap: int)
    ensures
        ExpRules::standard().share(earned, gap) == earned * (50 * (5 - gap)) / 500,
{
}

/// The entries fix the experience: two settled lists that log the same
/// entries in the same order are the same list.
pub proof fn settled_records_are_fixed_by_entries(
    rules: ExpRules,
    a: Seq<SheetActionRecord>,
    b: Seq<SheetActionRecord>,
)
    requires
        settled(rules, a),
        settled(rules, b),
        same_entries(a, b),
    ensures
        a == b,
{
    lemma_settled_prefixes_agree(rules, a, b, a.len() as int);
}

/// Two settled lists with the same entries agree on their first `upto`
/// records.
proof fn lemma_settled_prefixes_agree(
    rules: ExpRules,
    a: Seq<SheetActionRecord>,
    b: Seq<SheetActionRecord>,
    upto: int,
)
    requires
        settled(rules, a),
        settled(rules, b),
        same_entries(a, b),
        0 <= upto <= a.len(),
    ensures
        forall|k: int| 0 <= k < upto ==> a[k] == b[k],
    decreases upto,
{
    if upto > 0 {
        lemma_settled_prefixes_agree(rules, a, b, upto - 1);
        let at = upto - 1;
        assert(settled_at(rules, a, at));
        assert(settled_at(rules, b, at));
        lemma_streak_sum_reads_prefix(rules, a, b, at, a[at].date@, a[at].date@);
    }
}

/// Recomputing is idempotent: a second recompute of a skill that was just
/// recomputed, under the same rules and on the same day, leaves every
/// record, the total and the forecast as they were.
pub proof fn recompute_twice_changes_nothing(
    rules: ExpRules,
    today: Date,
    before: Skill,
    once: Skill,
    twice: Skill,
)
    requires
        once.recomputed_from(before, rules, today),
        twice.recomputed_from(once, rules, today),
    ensures
        twice.records@ == once.records@,
        twice.total_exp == once.total_exp,
        twice.potential_bonus == once.potential_bonus,
        twice.name == once.name,
{
    settled_records_are_fixed_by_entries(rules, once.records@, twice.records@);
}

/// Sorting settles the order of the entries: two lists of the same records,
/// both in ascending order of date, log the same entries in the same order,
/// provided that the day of a record fixes its minutes.
///
/// Without the proviso two records of one day with different minutes can
/// stand either way round, and both ways are sorted.
pub proof fn sorted_lists_of_the_same_records_agree(
    a: Seq<SheetActionRecord>,
    b: Seq<SheetActionRecord>,
)
    requires
        sorted_by_date(a),
        sorted_by_date(b),
        a.to_multiset() == b.to_multiset(),
        day_fixes_duration(a),
    ensures
        same_entries(a, b),
    decreases a.len(),
{
    a.to_multiset_ensures();
    b.to_multiset_ensures();
    if a.len() > 0 {
        let count = a.len() as int;
        let last = a.last();
        assert(b.to_multiset().count(last) > 0);
        let place = choose|place: int| 0 <= place < b.len() && b[place] == last;
        let a_rest = a.remove(count - 1);
        let b_rest = b.remove(place);
        sorted_lists_of_the_same_records_agree(a_rest, b_rest);
        // Every record of `b` is a record of `a`.
        assert forall|k: int| 0 <= k < count implies exists|i: int|
            0 <= i < count && a[i] == #[trigger] b[k] by {
            assert(a.to_multiset().count(b[k]) > 0);
        }
        // From `place` on, the records of `b` are dated like the last of `a`,
        // which is the latest of all.
        assert forall|k: int| place <= k < count implies (#[trigger] b[k]).same_entry(last) by {
            let twin = choose|i: int| 0 <= i < count && a[i] == b[k];
            assert(a[twin].date@ <= last.date@);
        }
        assert forall|k: int| 0 <= k < count implies (#[trigger] a[k]).same_entry(b[k]) by {
            if k < count - 1 {
                assert(a_rest[k].same_entry(b_rest[k]));
            }
        }
    }
}

/// The order in which records were logged does not matter, provided that
/// the day of a record fixes its minutes: a skill and a shuffled copy of it,
/// each sorted and then recomputed under the same rules on the same day, end
/// with the same records, the same total and the same forecast.
///
/// Two records of one day with different minutes stay in the order in which
/// they were logged, and the later of them draws from the earlier; so the
/// proviso cannot be dropped.
pub proof fn logging_order_does_not_matter(
    rules: ExpRules,
    today: Date,
    skill: Skill,
    skill_sorted: Skill,
    skill_done: Skill,
    shuffled: Skill,
    shuffled_sorted: Skill,
    shuffled_done: Skill,
)
    requires
        shuffled.records@.to_multiset() == skill.records@.to_multiset(),
        day_fixes_duration(skill.records@),
        skill_sorted.sorted_from(skill),
        skill_done.recomputed_from(skill_sorted, rules, today),
        shuffled_sorted.sorted_from(shuffled),
        shuffled_done.recomputed_from(shuffled_sorted, rules, today),
    ensures
        shuffled_done.records@ == skill_done.records@,
        shuffled_done.total_exp == skill_done.total_exp,
        shuffled_done.potential_bonus == skill_done.potential_bonus,
{
    let a = skill_sorted.records@;
    let b = shuffled_sorted.records@;
    skill.records@.to_multiset_ensures();
    a.to_multiset_ensures();
    assert(day_fixes_duration(a)) by {
        assert forall|i: int, j: int|
            0 <= i < a.len() && 0 <= j < a.len() && a[i].date@ == a[j].date@ implies a[i].duration
            == a[j].duration by {
            assert(skill.records@.to_multiset().count(a[i]) > 0);
            assert(skill.records@.to_multiset().count(a[j]) > 0);
        }
    }
    sorted_lists_of_the_same_records_agree(a, b);
    assert forall|k: int| 0 <= k < skill_done.records@.len() implies (
    #[trigger] skill_done.records@[k]).same_entry(shuffled_done.records@[k]) by {
        assert(a[k].same_entry(b[k]));
    }
    settled_records_are_fixed_by_entries(rules, skill_done.records@, shuffled_done.records@);
}

} // verus!
