//! What holds of every course of an extraction.

use vstd::prelude::*;

use crate::flow::{
    direct_next, reported, staged_next, DirectStep, Front, Packed, StagedStep,
};
use crate::run_control::RunEnd;

verus! {

// ---------------------------------------------------------------------------
// With a staging directory
// ---------------------------------------------------------------------------

/// What an extraction that stages its files has done so far.
pub ghost struct Staged {
    pub step: StagedStep,
    /// There is a staging directory.
    pub staging: bool,
    /// The files are in place.
    pub placed: bool,
}

/// An extraction before its first step.
pub open spec fn staged_start() -> Staged {
    Staged { step: StagedStep::Scan, staging: false, placed: false }
}

/// How one step went.
pub ghost struct Went {
    pub result: RunEnd,
    /// The user has asked to stop.
    pub user_cancelled: bool,
    /// The staging directory was renamed to the output directory. A putting in place that went
    /// well has done so; one that failed has done so where only the previous output is left to
    /// be removed.
    pub renamed: bool,
}

/// The extraction after its step went as `went` says. A staging directory is there once it was
/// made, until it is put in place or removed.
pub open spec fn staged_after(front: Front, packed: Packed, flow: Staged, went: Went) -> Staged {
    let went_well = went.result == RunEnd::Finished;
    let step = staged_next(front, packed, flow.step, went.result, went.user_cancelled);
    match flow.step {
        StagedStep::Prepare if went_well => Staged { step, staging: true, ..flow },
        StagedStep::Place if went_well || went.renamed => Staged {
            step,
            staging: false,
            placed: true,
        },
        StagedStep::Discard { .. } => Staged { step, staging: false, ..flow },
        _ => Staged { step, ..flow },
    }
}

/// The extraction after steps that went as `results` say.
pub open spec fn staged_run(front: Front, packed: Packed, results: Seq<Went>) -> Staged
    decreases results.len(),
{
    if results.len() == 0 {
        staged_start()
    } else {
        let before = staged_run(front, packed, results.drop_last());
        staged_after(front, packed, before, results.last())
    }
}

/// What the step says of what has been done.
spec fn staged_fits(flow: Staged) -> bool {
    match flow.step {
        StagedStep::Scan | StagedStep::Prepare => !flow.staging && !flow.placed,
        StagedStep::Announce | StagedStep::Unpack | StagedStep::Place => flow.staging
            && !flow.placed,
        StagedStep::ShowAllDone { placed } => flow.placed == placed && flow.staging == !placed,
        StagedStep::Discard { end } => flow.staging == !flow.placed && end != RunEnd::Finished && (
        flow.placed ==> end == RunEnd::Failed),
        StagedStep::Report => !flow.staging && flow.placed,
        StagedStep::End { end } => {
            &&& !flow.staging
            &&& end == RunEnd::Finished ==> flow.placed
            &&& end == RunEnd::Cancelled ==> !flow.placed
        },
    }
}

/// Among `results` is a putting in place that failed after the renaming.
pub open spec fn failed_after_renaming(
    front: Front,
    packed: Packed,
    results: Seq<Went>,
    i: int,
) -> bool {
    &&& 0 <= i < results.len()
    &&& staged_run(front, packed, results.take(i)).step == StagedStep::Place
    &&& results[i].result != RunEnd::Finished
    &&& results[i].renamed
}

proof fn lemma_staged_fits(front: Front, packed: Packed, results: Seq<Went>)
    ensures
        staged_fits(staged_run(front, packed, results)),
    decreases results.len(),
{
    if results.len() > 0 {
        lemma_staged_fits(front, packed, results.drop_last());
    }
}

/// Files that are in place when an extraction fails were put there by a renaming after which
/// something else failed.
proof fn lemma_placed_in_failure(front: Front, packed: Packed, results: Seq<Went>) -> (at: int)
    requires
        staged_run(front, packed, results).placed,
        match staged_run(front, packed, results).step {
            StagedStep::Discard { end } | StagedStep::End { end } => end != RunEnd::Finished,
            _ => false,
        },
    ensures
        failed_after_renaming(front, packed, results, at),
    decreases results.len(),
{
    let before = results.drop_last();
    assert(results.take(results.len() - 1) =~= before);
    lemma_staged_fits(front, packed, before);
    if staged_run(front, packed, before).step == StagedStep::Place {
        results.len() - 1
    } else {
        let at = lemma_placed_in_failure(front, packed, before);
        assert(results.take(at) =~= before.take(at));
        at
    }
}

/// An extraction that has ended leaves no staging directory. Its files are in place if it says
/// that it finished, and are not if it says that it was stopped. If it says that it failed, they
/// are in place only where the previous output could not be removed after they were.
pub proof fn law_ended_extraction_is_clean(
    front: Front,
    packed: Packed,
    results: Seq<Went>,
)
    ensures
        staged_run(front, packed, results).step matches StagedStep::End { end } ==> {
            &&& !staged_run(front, packed, results).staging
            &&& end == RunEnd::Finished ==> staged_run(front, packed, results).placed
            &&& end == RunEnd::Cancelled ==> !staged_run(front, packed, results).placed
            &&& end == RunEnd::Failed && staged_run(front, packed, results).placed ==> exists|
                i: int,
            | #[trigger] failed_after_renaming(front, packed, results, i)
        },
{
    lemma_staged_fits(front, packed, results);
    let flow = staged_run(front, packed, results);
    if let StagedStep::End { end } = flow.step {
        if end == RunEnd::Failed && flow.placed {
            let at = lemma_placed_in_failure(front, packed, results);
        }
    }
}

/// Files are put in place only after all of them were unpacked, and never after a stop was
/// noticed while they were.
pub proof fn law_only_whole_output_is_placed(
    front: Front,
    packed: Packed,
    flow: StagedStep,
    result: RunEnd,
    user_cancelled: bool,
)
    ensures
        staged_next(front, packed, flow, result, user_cancelled) == StagedStep::Place ==> (flow
            == StagedStep::Unpack && result == RunEnd::Finished) || flow == (
        StagedStep::ShowAllDone { placed: false }),
        staged_next(front, packed, flow, result, user_cancelled) == (StagedStep::ShowAllDone {
            placed: false,
        }) ==> flow == StagedStep::Unpack && result == RunEnd::Finished,
        flow == StagedStep::Unpack && result != RunEnd::Finished ==> staged_next(
            front,
            packed,
            flow,
            result,
            user_cancelled,
        ) == (StagedStep::Discard { end: result }),
{
}

/// Every extraction comes to an end, however its steps go.
pub proof fn law_every_extraction_ends(front: Front, packed: Packed, results: Seq<Went>)
    requires
        results.len() >= 8,
    ensures
        staged_run(front, packed, results).step is End,
{
    lemma_progress(front, packed, results);
}

/// How many steps there are at most from `step` to the end.
spec fn steps_left(step: StagedStep) -> int {
    match step {
        StagedStep::Scan => 8,
        StagedStep::Prepare => 7,
        StagedStep::Announce => 6,
        StagedStep::Unpack => 5,
        StagedStep::ShowAllDone { placed } => if placed {
            2
        } else {
            4
        },
        StagedStep::Place => 3,
        StagedStep::Discard { .. } => 1,
        StagedStep::Report => 1,
        StagedStep::End { .. } => 0,
    }
}

proof fn lemma_progress(front: Front, packed: Packed, results: Seq<Went>)
    ensures
        steps_left(staged_run(front, packed, results).step) <= if results.len() >= 8 {
            0
        } else {
            8 - results.len()
        },
    decreases results.len(),
{
    if results.len() > 0 {
        lemma_progress(front, packed, results.drop_last());
    }
}

/// The step of an extraction of which `n` steps went well.
spec fn smooth_step(front: Front, packed: Packed, n: int) -> StagedStep {
    let shown = front == Front::Gui;
    if n == 0 {
        StagedStep::Scan
    } else if n == 1 {
        StagedStep::Prepare
    } else if n == 2 {
        StagedStep::Announce
    } else if n == 3 {
        StagedStep::Unpack
    } else if n == 4 {
        if shown && packed == Packed::Zip {
            StagedStep::ShowAllDone { placed: false }
        } else {
            StagedStep::Place
        }
    } else if n == 5 && shown {
        if packed == Packed::Zip {
            StagedStep::Place
        } else {
            StagedStep::ShowAllDone { placed: true }
        }
    } else if n == 5 || n == 6 && shown {
        StagedStep::Report
    } else {
        StagedStep::End { end: RunEnd::Finished }
    }
}

proof fn lemma_smooth(front: Front, packed: Packed, results: Seq<Went>)
    requires
        forall|i: int|
            0 <= i < results.len() ==> (#[trigger] results[i]).result == RunEnd::Finished
                && !results[i].user_cancelled,
    ensures
        staged_run(front, packed, results).step == smooth_step(
            front,
            packed,
            results.len() as int,
        ),
    decreases results.len(),
{
    if results.len() > 0 {
        let before = results.drop_last();
        assert forall|i: int| 0 <= i < before.len() implies (#[trigger] before[i]).result
            == RunEnd::Finished && !before[i].user_cancelled by {
            assert(before[i] == results[i]);
        }
        lemma_smooth(front, packed, before);
        assert(results[results.len() - 1] == results.last());
    }
}

/// An extraction whose steps all go well, and that nobody asks to stop, finishes with its files in
/// place and no staging directory left.
pub proof fn law_a_smooth_extraction_finishes(front: Front, packed: Packed, results: Seq<Went>)
    requires
        results.len() >= 8,
        forall|i: int|
            0 <= i < results.len() ==> (#[trigger] results[i]).result == RunEnd::Finished
                && !results[i].user_cancelled,
    ensures
        staged_run(front, packed, results).step == (StagedStep::End { end: RunEnd::Finished }),
        staged_run(front, packed, results).placed,
        !staged_run(front, packed, results).staging,
{
    lemma_smooth(front, packed, results);
    law_ended_extraction_is_clean(front, packed, results);
}

/// A step that fails is told as a failure, and one that was stopped as a stop; what was unpacked is
/// removed first, wherever something was. What is only said or shown holds nothing up. Asking to
/// stop alone ends nothing but the unpacking of a package in the window.
pub proof fn law_failures_are_told(
    front: Front,
    packed: Packed,
    step: StagedStep,
    result: RunEnd,
    user_cancelled: bool,
)
    ensures
        ({
            let next = staged_next(front, packed, step, result, user_cancelled);
            let failed = result != RunEnd::Finished;
            &&& failed && (step == StagedStep::Scan || step == StagedStep::Prepare) ==> next == (
            StagedStep::End { end: RunEnd::Failed })
            &&& failed && step == StagedStep::Unpack ==> next == (StagedStep::Discard {
                end: result,
            })
            &&& failed && step == StagedStep::Place ==> next == (StagedStep::Discard {
                end: RunEnd::Failed,
            })
            &&& step matches StagedStep::Discard { end } ==> next == (StagedStep::End { end })
            &&& step == StagedStep::Announce ==> next == StagedStep::Unpack
            &&& step == StagedStep::Report ==> next == (StagedStep::End { end: RunEnd::Finished })
            &&& step matches StagedStep::ShowAllDone { placed } ==> next == if placed {
                StagedStep::Report
            } else {
                StagedStep::Place
            }
            &&& !failed && step == StagedStep::Unpack ==> (next is Discard <==> front == Front::Gui
                && packed == Packed::Pkg && user_cancelled)
            &&& step != StagedStep::Unpack ==> next == staged_next(
                front,
                packed,
                step,
                result,
                !user_cancelled,
            )
        }),
{
}

/// Of a package the files that were written are reported, of other archives those that were found.
pub proof fn law_reported_files(counted: u64, written: u64)
    ensures
        reported(Packed::Pkg, counted, written) == written,
        reported(Packed::Zip, counted, written) == counted,
{
}

// ---------------------------------------------------------------------------
// With an outside program
// ---------------------------------------------------------------------------

/// What is at the output path is removed before the run only on request, and after it only where
/// the run was stopped.
pub proof fn law_output_is_removed_only_on_request(
    force: bool,
    step: DirectStep,
    result: RunEnd,
    present: bool,
)
    ensures
        direct_next(force, step, result, present) == DirectStep::ClearOutput ==> force && present
            && step == DirectStep::CheckOutput && result == RunEnd::Finished,
        direct_next(force, step, result, present) == DirectStep::RemoveOutput ==> present && step
            == DirectStep::RunProgram && result == RunEnd::Cancelled,
{
}

/// The program runs only once it was found, the output path was free or cleared, and the output
/// directory was made.
pub proof fn law_program_runs_in_a_fresh_directory(
    force: bool,
    step: DirectStep,
    result: RunEnd,
    present: bool,
)
    ensures
        ({
            let next = direct_next(force, step, result, present);
            let went_well = result == RunEnd::Finished;
            &&& next == DirectStep::RunProgram ==> step == DirectStep::CountFiles
            &&& next == DirectStep::CountFiles ==> step == DirectStep::Announce
            &&& next == DirectStep::Announce ==> step == DirectStep::MakeOutput && went_well
            &&& next == DirectStep::MakeOutput ==> went_well && (step == DirectStep::ClearOutput
                || step == DirectStep::CheckOutput && !(force && present))
            &&& next == DirectStep::CheckOutput ==> step == DirectStep::Probe && went_well
        }),
{
}

/// An extraction with an outside program after steps that went as `results` say, each with whether
/// there was something at the output path then.
pub open spec fn direct_run(force: bool, results: Seq<(RunEnd, bool)>) -> DirectStep
    decreases results.len(),
{
    if results.len() == 0 {
        DirectStep::Probe
    } else {
        direct_next(
            force,
            direct_run(force, results.drop_last()),
            results.last().0,
            results.last().1,
        )
    }
}

/// How many steps there are at most from `step` to the end.
spec fn direct_steps_left(step: DirectStep) -> int {
    match step {
        DirectStep::Probe => 8,
        DirectStep::CheckOutput => 7,
        DirectStep::ClearOutput => 6,
        DirectStep::MakeOutput => 5,
        DirectStep::Announce => 4,
        DirectStep::CountFiles => 3,
        DirectStep::RunProgram => 2,
        DirectStep::RemoveOutput => 1,
        DirectStep::Report => 1,
        DirectStep::End { .. } => 0,
    }
}

/// An extraction with an outside program comes to an end, however its steps go; and one whose steps
/// all go well finishes.
pub proof fn law_a_program_run_ends(force: bool, results: Seq<(RunEnd, bool)>)
    ensures
        results.len() >= 8 ==> direct_run(force, results) is End,
        results.len() >= 8 && (forall|i: int|
            0 <= i < results.len() ==> (#[trigger] results[i]).0 == RunEnd::Finished)
            ==> direct_run(force, results) == (DirectStep::End { end: RunEnd::Finished }),
{
    lemma_direct_progress(force, results);
    if forall|i: int| 0 <= i < results.len() ==> (#[trigger] results[i]).0 == RunEnd::Finished {
        lemma_direct_smooth(force, results);
    }
}

proof fn lemma_direct_progress(force: bool, results: Seq<(RunEnd, bool)>)
    ensures
        direct_steps_left(direct_run(force, results)) <= if results.len() >= 8 {
            0
        } else {
            8 - results.len()
        },
    decreases results.len(),
{
    if results.len() > 0 {
        lemma_direct_progress(force, results.drop_last());
    }
}

proof fn lemma_direct_smooth(force: bool, results: Seq<(RunEnd, bool)>)
    requires
        forall|i: int| 0 <= i < results.len() ==> (#[trigger] results[i]).0 == RunEnd::Finished,
    ensures
        direct_run(force, results) != DirectStep::RemoveOutput,
        direct_run(force, results) matches DirectStep::End { end } ==> end == RunEnd::Finished,
    decreases results.len(),
{
    if results.len() > 0 {
        let before = results.drop_last();
        assert forall|i: int| 0 <= i < before.len() implies (#[trigger] before[i]).0
            == RunEnd::Finished by {
            assert(before[i] == results[i]);
        }
        lemma_direct_smooth(force, before);
        assert(results[results.len() - 1] == results.last());
    }
}

/// A run of the program that was stopped is told as a stop, and what it left behind is removed
/// first; one that failed is told as a failure, and what it left behind stays. Files that cannot be
/// counted hold nothing up.
pub proof fn law_ends_of_the_program_are_told(force: bool, present: bool, result: RunEnd)
    ensures
        direct_next(force, DirectStep::Announce, result, present) == DirectStep::CountFiles,
        direct_next(force, DirectStep::CountFiles, result, present) == DirectStep::RunProgram,
        direct_next(force, DirectStep::Report, result, present) == (DirectStep::End {
            end: RunEnd::Finished,
        }),
        direct_next(force, DirectStep::RemoveOutput, result, present) == (DirectStep::End {
            end: RunEnd::Cancelled,
        }),
        direct_next(force, DirectStep::RunProgram, RunEnd::Finished, present) == DirectStep::Report,
        direct_next(force, DirectStep::RunProgram, RunEnd::Failed, present) == (DirectStep::End {
            end: RunEnd::Failed,
        }),
        direct_next(force, DirectStep::RunProgram, RunEnd::Cancelled, true)
            == DirectStep::RemoveOutput,
        direct_next(force, DirectStep::RunProgram, RunEnd::Cancelled, false) == (DirectStep::End {
            end: RunEnd::Cancelled,
        }),
        direct_next(true, DirectStep::CheckOutput, RunEnd::Finished, true)
            == DirectStep::ClearOutput,
{
}

} // verus!
