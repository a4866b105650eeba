//! The pace and the end of a run that several workers share.

use vstd::prelude::*;

verus! {

/// How many bytes are unpacked between two looks at whether the run is still wanted.
pub const CANCEL_CHECK_INTERVAL_BYTES: usize = 262144;

/// How many nanoseconds pass at least between two names on display.
pub const PROGRESS_INTERVAL_NANOS: u64 = 100_000_000;

/// A run ended because it was no longer wanted.
#[derive(Debug, Clone, Copy, PartialEq, Eq, Structural)]
pub struct Cancelled;

// ---------------------------------------------------------------------------
// Looking whether the run is still wanted
// ---------------------------------------------------------------------------

/// Counts the bytes of a file, so that a look is taken only now and then.
#[derive(Debug)]
pub struct CancelGate {
    bytes_since_check: usize,
}

impl CancelGate {
    /// How many bytes came since the last look.
    pub closed spec fn since_check(&self) -> int {
        self.bytes_since_check as int
    }

    /// A gate before the first byte.
    pub fn new() -> (gate: Self)
        ensures
            gate.since_check() == 0,
    {
        CancelGate { bytes_since_check: 0 }
    }

    /// Whether the next read may go ahead. A run that is not wanted (`running` is false) is
    /// stopped here once enough bytes have come since the last look.
    pub fn before_read(&mut self, running: bool) -> (go: Result<(), Cancelled>)
        ensures
            match go {
                Ok(()) => {
                    &&& running || old(self).since_check() < CANCEL_CHECK_INTERVAL_BYTES
                    &&& final(self).since_check() == if old(self).since_check()
                        >= CANCEL_CHECK_INTERVAL_BYTES {
                        0
                    } else {
                        old(self).since_check()
                    }
                },
                Err(_) => {
                    &&& !running
                    &&& old(self).since_check() >= CANCEL_CHECK_INTERVAL_BYTES
                    &&& final(self).since_check() == old(self).since_check()
                },
            },
    {
        if self.bytes_since_check >= CANCEL_CHECK_INTERVAL_BYTES {
            if !running {
                return Err(Cancelled);
            }
            self.bytes_since_check = 0;
        }
        Ok(())
    }

    /// Counts the `n` bytes of a read. No slice holds more than `isize::MAX` bytes.
    pub fn after_read(&mut self, n: usize)
        requires
            old(self).since_check() < CANCEL_CHECK_INTERVAL_BYTES,
            n <= isize::MAX,
        ensures
            final(self).since_check() == old(self).since_check() + n,
    {
        self.bytes_since_check = self.bytes_since_check + n;
    }
}

// ---------------------------------------------------------------------------
// Pace
// ---------------------------------------------------------------------------

/// How many entries a worker takes at least: an even share, and one at the least.
pub open spec fn share_of(entry_count: int, thread_count: int) -> int {
    if entry_count < thread_count {
        1
    } else {
        entry_count / thread_count
    }
}

/// How many entries a worker takes at least: an even share, and one at the least.
pub fn min_chunk_size(entry_count: usize, thread_count: usize) -> (size: usize)
    requires
        thread_count > 0,
    ensures
        size == share_of(entry_count as int, thread_count as int),
{
    let share: usize = entry_count / thread_count;
    assert(entry_count < thread_count ==> share == 0) by (nonlinear_arith)
        requires
            share == entry_count as int / thread_count as int,
            thread_count > 0,
    ;
    assert(entry_count >= thread_count ==> share >= 1) by (nonlinear_arith)
        requires
            share == entry_count as int / thread_count as int,
            thread_count > 0,
    ;
    if share < 1 {
        1
    } else {
        share
    }
}

/// A name is to be shown at `now`, after one was shown at `last`.
pub open spec fn is_due(now: int, last: int) -> bool {
    now - last >= PROGRESS_INTERVAL_NANOS
}

/// Whether a name is to be shown at `now`, after one was shown at `last`.
pub fn name_is_due(now_nanos: u64, last_nanos: u64) -> (due: bool)
    ensures
        due == is_due(now_nanos as int, last_nanos as int),
{
    now_nanos.saturating_sub(last_nanos) >= PROGRESS_INTERVAL_NANOS
}

// ---------------------------------------------------------------------------
// The end of a run
// ---------------------------------------------------------------------------

/// How a run ends.
#[derive(Debug, Clone, Copy, PartialEq, Eq, Structural)]
pub enum RunEnd {
    Finished,
    Cancelled,
    Failed,
}

/// What a run whose workers ended with `end` comes to. A failure after the user asked to stop
/// counts as stopping; a run that got everything done is done.
pub open spec fn concluded(end: RunEnd, user_cancelled: bool) -> RunEnd {
    match end {
        RunEnd::Finished => RunEnd::Finished,
        RunEnd::Cancelled => RunEnd::Cancelled,
        RunEnd::Failed => if user_cancelled {
            RunEnd::Cancelled
        } else {
            RunEnd::Failed
        },
    }
}

/// What a run whose workers ended with `end` comes to.
pub fn conclude(end: RunEnd, user_cancelled: bool) -> (outcome: RunEnd)
    ensures
        outcome == concluded(end, user_cancelled),
{
    match end {
        RunEnd::Failed => if user_cancelled {
            RunEnd::Cancelled
        } else {
            RunEnd::Failed
        },
        other => other,
    }
}

/// How many files there are, as far as it is known: `files_total`, or `known` where that is zero.
pub open spec fn total_of(files_total: u64, known: u64) -> u64 {
    if files_total > 0 {
        files_total
    } else {
        known
    }
}

/// How many files there are, as far as it is known.
pub fn progress_total(files_total: u64, known: u64) -> (total: u64)
    ensures
        total == total_of(files_total, known),
{
    if files_total > 0 {
        files_total
    } else {
        known
    }
}

} // verus!
