//! How many days of leave an employee has taken.

use crate::records::Leave;
use vstd::prelude::*;

verus! {

/// The days of one leave interval: those from its first day to its last,
/// both counted.
pub open spec fn interval_days(leave: Leave) -> int {
    leave.leave_from.days_until(leave.leave_to) + 1
}

/// The days of `leave` that count for employee `emp_id`: its days where it
/// is that employee's, none otherwise.
pub open spec fn days_counted(leave: Leave, emp_id: i32) -> int {
    if leave.emp_id == emp_id {
        interval_days(leave)
    } else {
        0
    }
}

/// The sum of the days of all intervals of `leaves` that are employee
/// `emp_id`'s. Each interval counts by itself: days that two intervals share
/// count twice.
pub open spec fn total_leave_days(leaves: Seq<Leave>, emp_id: i32) -> int
    decreases leaves.len(),
{
    if leaves.len() == 0 {
        0
    } else {
        total_leave_days(leaves.drop_last(), emp_id) + days_counted(leaves.last(), emp_id)
    }
}

/// The total of the leave days of employee `emp_id`.
pub fn calculate_leave_days(leaves: &Vec<Leave>, emp_id: i32) -> (total_days: i128)
    ensures
        total_days == total_leave_days(leaves@, emp_id),
{
    let mut total_days: i128 = 0;
    let mut i: usize = 0;
    while i < leaves.len()
        invariant
            i <= leaves.len(),
            total_days == total_leave_days(leaves@.take(i as int), emp_id),
            -(i * 0x1_0000_0000) <= total_days <= i * 0x1_0000_0000,
        decreases leaves.len() - i,
    {
        let leave = &leaves[i];
        assert(leaves@.take(i + 1).drop_last() =~= leaves@.take(i as int));
        if leave.emp_id == emp_id {
            total_days = total_days + (leave.leave_from.days_to(&leave.leave_to) as i128 + 1);
        }
        i += 1;
    }
    assert(leaves@.take(leaves.len() as int) =~= leaves@);
    total_days
}

/// An interval whose first day is its last day is one day of leave.
pub proof fn lemma_single_day_is_one_day(leave: Leave)
    requires
        leave.leave_from == leave.leave_to,
    ensures
        interval_days(leave) == 1,
{
}

/// The total over two logs, one after the other, is the sum of the totals
/// over each: every interval counts once, whatever stands around it.
pub proof fn lemma_leave_days_add_up(first: Seq<Leave>, second: Seq<Leave>, emp_id: i32)
    ensures
        total_leave_days(first + second, emp_id) == total_leave_days(first, emp_id)
            + total_leave_days(second, emp_id),
    decreases second.len(),
{
    if second.len() > 0 {
        assert((first + second).drop_last() =~= first + second.drop_last());
        lemma_leave_days_add_up(first, second.drop_last(), emp_id);
    }
}

/// An employee without an interval in the log has no leave days.
pub proof fn lemma_no_leave_is_zero_days(leaves: Seq<Leave>, emp_id: i32)
    requires
        forall|i: int| 0 <= i < leaves.len() ==> (#[trigger] leaves[i]).emp_id != emp_id,
    ensures
        total_leave_days(leaves, emp_id) == 0,
    decreases leaves.len(),
{
    if leaves.len() > 0 {
        lemma_no_leave_is_zero_days(leaves.drop_last(), emp_id);
    }
}

/// Where none of an employee's intervals ends before it starts, each of
/// them counts at least one day and the total is not negative.
pub proof fn lemma_leave_days_not_negative(leaves: Seq<Leave>, emp_id: i32)
    requires
        forall|i: int|
            0 <= i < leaves.len() && (#[trigger] leaves[i]).emp_id == emp_id
                ==> leaves[i].ends_no_earlier_than_it_starts(),
    ensures
        forall|i: int|
            0 <= i < leaves.len() && (#[trigger] leaves[i]).emp_id == emp_id ==> interval_days(
                leaves[i],
            ) >= 1,
        total_leave_days(leaves, emp_id) >= 0,
    decreases leaves.len(),
{
    if leaves.len() > 0 {
        lemma_leave_days_not_negative(leaves.drop_last(), emp_id);
    }
}

} // verus!
