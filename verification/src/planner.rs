//! The partition planner: one partition for each day of a range.

use crate::calendar::Day;
use vstd::prelude::*;

verus! {

/// The days from number `start` up to, and without, number `end`.
pub open spec fn days_between(start: int, end: int) -> Seq<Day> {
    Seq::new(
        if end > start {
            (end - start) as nat
        } else {
            0
        },
        |i: int| Day { number: (start + i) as i32 },
    )
}

/// Plans the partitions of the range from `start` up to, and without, `end`:
/// every day of it, once, in ascending order. An empty or reversed range has
/// no partitions.
pub fn generate_dates(start: Day, end: Day) -> (dates: Vec<Day>)
    requires
        start.valid(),
        end.valid(),
    ensures
        dates@ == days_between(start.number as int, end.number as int),
{
    let mut dates: Vec<Day> = Vec::new();
    let mut current = start;
    assert(start.number >= end.number ==> dates@ =~= days_between(
        start.number as int,
        end.number as int,
    ));
    while current.number < end.number
        invariant
            start.valid(),
            end.valid(),
            current.valid(),
            start.number <= current.number,
            current.number <= end.number || dates@.len() == 0,
            dates@ == days_between(start.number as int, current.number as int),
        ensures
            dates@ == days_between(start.number as int, end.number as int),
        decreases end.number - current.number,
    {
        dates.push(current);
        match current.next() {
            Some(next) => {
                current = next;
            },
            None => {
                // The calendar ends here. No day of a valid range gets here,
                // since its end lies after it; a day that cannot be advanced
                // ends the plan instead of being planned again and again.
                break ;
            },
        }
        assert(dates@ =~= days_between(start.number as int, current.number as int));
        assert(current.number >= end.number ==> dates@ =~= days_between(
            start.number as int,
            end.number as int,
        ));
    }
    dates
}

/// A plan holds as many partitions as the range has days, in strictly
/// ascending order, all of them inside the range.
pub proof fn lemma_plan_covers_range(start: Day, end: Day)
    requires
        start.valid(),
        end.valid(),
        start.number < end.number,
    ensures
        days_between(start.number as int, end.number as int).len() == end.number - start.number,
        forall|i: int|
            0 <= i < end.number - start.number ==> {
                let day = #[trigger] days_between(start.number as int, end.number as int)[i];
                day.valid() && start.number <= day.number < end.number && day.number == start.number
                    + i
            },
        forall|i: int, j: int|
            0 <= i < j < end.number - start.number ==> days_between(
                start.number as int,
                end.number as int,
            )[i].number < days_between(start.number as int, end.number as int)[j].number,
{
}

} // verus!
