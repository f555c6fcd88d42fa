//! The order of the records of a skill.

use crate::record::SheetActionRecord;
use vstd::prelude::*;

verus! {

/// Whether the records are in ascending order of date.
pub open spec fn sorted_by_date(records: Seq<SheetActionRecord>) -> bool {
    forall|i: int, j: int| 0 <= i <= j < records.len() ==> records[i].date@ <= records[j].date@
}

/// The test that a record is dated `day`.
pub open spec fn on_day(day: int) -> spec_fn(SheetActionRecord) -> bool {
    |record: SheetActionRecord| record.date@ == day
}

/// The records dated `day`, in the order of the list.
pub open spec fn of_day(records: Seq<SheetActionRecord>, day: int) -> Seq<SheetActionRecord> {
    records.filter(on_day(day))
}

/// Whether `after` is `before` sorted by date: the same records, in
/// ascending order of date, those of one day in the order they had.
pub open spec fn date_sorted_from(
    before: Seq<SheetActionRecord>,
    after: Seq<SheetActionRecord>,
) -> bool {
    &&& sorted_by_date(after)
    &&& after.to_multiset() == before.to_multiset()
    &&& forall|day: int| #[trigger] of_day(after, day) == of_day(before, day)
}

/// The list with the records at `at - 1` and `at` exchanged.
pub open spec fn swapped(records: Seq<SheetActionRecord>, at: int) -> Seq<SheetActionRecord> {
    records.update(at - 1, records[at]).update(at, records[at - 1])
}

/// Exchanging two neighbours keeps the records.
pub proof fn lemma_swap_keeps_records(records: Seq<SheetActionRecord>, at: int)
    requires
        0 < at < records.len(),
    ensures
        swapped(records, at).to_multiset() == records.to_multiset(),
{
    broadcast use {vstd::seq_lib::to_multiset_update, vstd::multiset::group_multiset_axioms};

    // The record that the first update takes out is there to be taken out.
    assert(records.to_multiset().count(records[at - 1]) > 0) by {
        vstd::seq_lib::to_multiset_contains(records, records[at - 1]);
    }
}

/// Exchanging two neighbours of different dates keeps the order within every
/// day.
pub proof fn lemma_swap_keeps_days(records: Seq<SheetActionRecord>, at: int, day: int)
    requires
        0 < at < records.len(),
        records[at - 1].date@ != records[at].date@,
    ensures
        of_day(swapped(records, at), day) == of_day(records, day),
{
    let test = on_day(day);
    let head = records.take(at - 1);
    let tail = records.skip(at + 1);
    let first = seq![records[at - 1]];
    let second = seq![records[at]];
    assert(records =~= head + first + second + tail);
    assert(swapped(records, at) =~= head + second + first + tail);
    Seq::filter_distributes_over_add(head + first + second, tail, test);
    Seq::filter_distributes_over_add(head + first, second, test);
    Seq::filter_distributes_over_add(head, first, test);
    Seq::filter_distributes_over_add(head + second + first, tail, test);
    Seq::filter_distributes_over_add(head + second, first, test);
    Seq::filter_distributes_over_add(head, second, test);
    reveal_with_fuel(Seq::filter, 2);
}

} // verus!
