//! What holds of the pace and the end of a run.

use vstd::prelude::*;

use crate::run_control::{
    concluded, is_due, share_of, total_of, RunEnd, CANCEL_CHECK_INTERVAL_BYTES,
};

verus! {

/// Every worker has something to take, the shares of all workers do not exceed what there is, and
/// larger shares would, where there is one entry or more for each worker.
pub proof fn law_shares_are_even(entry_count: int, thread_count: int)
    requires
        thread_count > 0,
        entry_count >= 0,
    ensures
        share_of(entry_count, thread_count) >= 1,
        entry_count >= thread_count ==> share_of(entry_count, thread_count) * thread_count
            <= entry_count,
        (share_of(entry_count, thread_count) + 1) * thread_count > entry_count,
{
    let share = entry_count / thread_count;
    assert(share * thread_count <= entry_count < (share + 1) * thread_count) by (nonlinear_arith)
        requires
            share == entry_count / thread_count,
            thread_count > 0,
    ;
    if entry_count >= thread_count {
        assert(share >= 1) by (nonlinear_arith)
            requires
                entry_count < (share + 1) * thread_count,
                entry_count >= thread_count,
                thread_count > 0,
        ;
    } else {
        let own = share_of(entry_count, thread_count);
        assert((own + 1) * thread_count > entry_count) by (nonlinear_arith)
            requires
                own == 1,
                0 <= entry_count < thread_count,
        ;
    }
}

/// Names follow each other on display no faster than ten in a second, and a name that comes later
/// still is shown as well.
pub proof fn law_names_are_shown_ten_times_a_second(now: int, last: int, later: int)
    ensures
        is_due(now, last) <==> now >= last + 100 * 1000 * 1000,
        is_due(now, last) && later >= now ==> is_due(later, last),
        CANCEL_CHECK_INTERVAL_BYTES == 256 * 1024,
{
}

/// A run that got everything done is done, whether or not it was to be stopped; a failure is a
/// failure unless the run was to be stopped; and no run that was stopped counts as done.
pub proof fn law_ends_are_told_apart(end: RunEnd, user_cancelled: bool)
    ensures
        concluded(end, user_cancelled) == RunEnd::Finished <==> end == RunEnd::Finished,
        concluded(end, user_cancelled) == RunEnd::Failed <==> end == RunEnd::Failed
            && !user_cancelled,
        concluded(concluded(end, user_cancelled), user_cancelled) == concluded(end, user_cancelled),
{
}

/// The number of files that is told is the one that came with the event, or else the one that is
/// known; there is none only where neither says one.
pub proof fn law_totals(files_total: u64, known: u64)
    ensures
        files_total != 0 ==> total_of(files_total, known) == files_total,
        files_total == 0 ==> total_of(files_total, known) == known,
{
}

} // verus!
