//! The course of an extraction, from the first look at an installer to the last report.
//!
//! What is to be done next is decided here; the caller does it and says how it went.

use vstd::prelude::*;

use crate::run_control::RunEnd;

verus! {

/// Where an extraction is shown.
#[derive(Debug, Clone, Copy, PartialEq, Eq, Structural)]
pub enum Front {
    /// On the command line.
    Cli,
    /// In the window.
    Gui,
}

/// The installers whose files are staged before they are put in place.
#[derive(Debug, Clone, Copy, PartialEq, Eq, Structural)]
pub enum Packed {
    Zip,
    Pkg,
}

// ---------------------------------------------------------------------------
// With a staging directory
// ---------------------------------------------------------------------------

/// What is to be done in an extraction that stages its files.
#[derive(Debug, Clone, Copy, PartialEq, Eq, Structural)]
pub enum StagedStep {
    /// Look at the installer and count its files.
    Scan,
    /// Make the staging directory.
    Prepare,
    /// Say where the files go.
    Announce,
    /// Write the files to the staging directory.
    Unpack,
    /// Show that all files are done.
    ShowAllDone {
        /// The files are in place already.
        placed: bool,
    },
    /// Put the staging directory in place.
    Place,
    /// Remove the staging directory.
    Discard {
        /// How the extraction ends after that.
        end: RunEnd,
    },
    /// Say that the extraction is done.
    Report,
    /// Nothing more.
    End {
        /// How the extraction ended.
        end: RunEnd,
    },
}

/// The step after `step`, which went as `result` says. In the window, a package whose files are
/// all written is still given up if the user asked to stop (`user_cancelled`).
pub open spec fn staged_next(
    front: Front,
    packed: Packed,
    step: StagedStep,
    result: RunEnd,
    user_cancelled: bool,
) -> StagedStep {
    let went_well = result == RunEnd::Finished;
    match step {
        StagedStep::Scan => if went_well {
            StagedStep::Prepare
        } else {
            StagedStep::End { end: RunEnd::Failed }
        },
        StagedStep::Prepare => if went_well {
            StagedStep::Announce
        } else {
            StagedStep::End { end: RunEnd::Failed }
        },
        StagedStep::Announce => StagedStep::Unpack,
        StagedStep::Unpack => if !went_well {
            StagedStep::Discard { end: result }
        } else if front == Front::Gui && packed == Packed::Pkg && user_cancelled {
            StagedStep::Discard { end: RunEnd::Cancelled }
        } else if front == Front::Gui && packed == Packed::Zip {
            StagedStep::ShowAllDone { placed: false }
        } else {
            StagedStep::Place
        },
        StagedStep::ShowAllDone { placed } => if placed {
            StagedStep::Report
        } else {
            StagedStep::Place
        },
        StagedStep::Place => if !went_well {
            StagedStep::Discard { end: RunEnd::Failed }
        } else if front == Front::Gui && packed == Packed::Pkg {
            StagedStep::ShowAllDone { placed: true }
        } else {
            StagedStep::Report
        },
        StagedStep::Discard { end } => StagedStep::End { end },
        StagedStep::Report => StagedStep::End { end: RunEnd::Finished },
        StagedStep::End { end } => StagedStep::End { end },
    }
}

/// An extraction that stages its files.
#[derive(Debug, Clone, Copy)]
pub struct StagedFlow {
    front: Front,
    packed: Packed,
    step: StagedStep,
}

impl StagedFlow {
    /// Where it is shown.
    pub closed spec fn front(&self) -> Front {
        self.front
    }

    /// What it extracts.
    pub closed spec fn packed(&self) -> Packed {
        self.packed
    }

    /// What is to be done.
    pub closed spec fn at(&self) -> StagedStep {
        self.step
    }

    /// An extraction before its first step.
    pub fn new(front: Front, packed: Packed) -> (flow: Self)
        ensures
            flow.front() == front,
            flow.packed() == packed,
            flow.at() == StagedStep::Scan,
    {
        StagedFlow { front, packed, step: StagedStep::Scan }
    }

    /// What is to be done.
    pub fn step(&self) -> (step: StagedStep)
        ensures
            step == self.at(),
    {
        self.step
    }

    /// The extraction after its step went as `result` says.
    pub fn after(self, result: RunEnd, user_cancelled: bool) -> (next: Self)
        ensures
            next.front() == self.front(),
            next.packed() == self.packed(),
            next.at() == staged_next(
                self.front(),
                self.packed(),
                self.at(),
                result,
                user_cancelled,
            ),
    {
        let went_well = result == RunEnd::Finished;
        let gui = self.front == Front::Gui;
        let pkg = self.packed == Packed::Pkg;
        let step = match self.step {
            StagedStep::Scan => if went_well {
                StagedStep::Prepare
            } else {
                StagedStep::End { end: RunEnd::Failed }
            },
            StagedStep::Prepare => if went_well {
                StagedStep::Announce
            } else {
                StagedStep::End { end: RunEnd::Failed }
            },
            StagedStep::Announce => StagedStep::Unpack,
            StagedStep::Unpack => if !went_well {
                StagedStep::Discard { end: result }
            } else if gui && pkg && user_cancelled {
                StagedStep::Discard { end: RunEnd::Cancelled }
            } else if gui && !pkg {
                StagedStep::ShowAllDone { placed: false }
            } else {
                StagedStep::Place
            },
            StagedStep::ShowAllDone { placed } => if placed {
                StagedStep::Report
            } else {
                StagedStep::Place
            },
            StagedStep::Place => if !went_well {
                StagedStep::Discard { end: RunEnd::Failed }
            } else if gui && pkg {
                StagedStep::ShowAllDone { placed: true }
            } else {
                StagedStep::Report
            },
            StagedStep::Discard { end } => StagedStep::End { end },
            StagedStep::Report => StagedStep::End { end: RunEnd::Finished },
            StagedStep::End { end } => StagedStep::End { end },
        };
        StagedFlow { front: self.front, packed: self.packed, step }
    }
}

/// How many files are reported for an installer in which `counted` files were found and of which
/// `written` were written: for a package those that were written, else those that were found.
pub open spec fn reported(packed: Packed, counted: u64, written: u64) -> u64 {
    match packed {
        Packed::Zip => counted,
        Packed::Pkg => written,
    }
}

/// How many files are reported for an installer in which `counted` files were found and of which
/// `written` were written.
pub fn files_to_report(packed: Packed, counted: u64, written: u64) -> (files: u64)
    ensures
        files == reported(packed, counted, written),
{
    match packed {
        Packed::Zip => counted,
        Packed::Pkg => written,
    }
}

// ---------------------------------------------------------------------------
// With an outside program
// ---------------------------------------------------------------------------

/// What is to be done in an extraction that an outside program carries out.
#[derive(Debug, Clone, Copy, PartialEq, Eq, Structural)]
pub enum DirectStep {
    /// Look whether the program is there.
    Probe,
    /// Look whether the output path may be used.
    CheckOutput,
    /// Remove what is at the output path.
    ClearOutput,
    /// Make the output directory.
    MakeOutput,
    /// Say where the files go.
    Announce,
    /// Count the files, as far as the program tells.
    CountFiles,
    /// Run the program.
    RunProgram,
    /// Remove the output directory, as the run was stopped.
    RemoveOutput,
    /// Say that the extraction is done.
    Report,
    /// Nothing more.
    End {
        /// How the extraction ended.
        end: RunEnd,
    },
}

/// The step after `step`, which went as `result` says; there is something at the output path
/// now (`present`) or not.
pub open spec fn direct_next(
    force: bool,
    step: DirectStep,
    result: RunEnd,
    present: bool,
) -> DirectStep {
    let failed = DirectStep::End { end: RunEnd::Failed };
    let went_well = result == RunEnd::Finished;
    match step {
        DirectStep::Probe => if went_well {
            DirectStep::CheckOutput
        } else {
            failed
        },
        DirectStep::CheckOutput => if !went_well {
            failed
        } else if force && present {
            DirectStep::ClearOutput
        } else {
            DirectStep::MakeOutput
        },
        DirectStep::ClearOutput => if went_well {
            DirectStep::MakeOutput
        } else {
            failed
        },
        DirectStep::MakeOutput => if went_well {
            DirectStep::Announce
        } else {
            failed
        },
        DirectStep::Announce => DirectStep::CountFiles,
        DirectStep::CountFiles => DirectStep::RunProgram,
        DirectStep::RunProgram => match result {
            RunEnd::Finished => DirectStep::Report,
            RunEnd::Cancelled => if present {
                DirectStep::RemoveOutput
            } else {
                DirectStep::End { end: RunEnd::Cancelled }
            },
            RunEnd::Failed => failed,
        },
        DirectStep::RemoveOutput => DirectStep::End { end: RunEnd::Cancelled },
        DirectStep::Report => DirectStep::End { end: RunEnd::Finished },
        DirectStep::End { end } => DirectStep::End { end },
    }
}

/// An extraction that an outside program carries out.
#[derive(Debug, Clone, Copy)]
pub struct DirectFlow {
    force: bool,
    step: DirectStep,
}

impl DirectFlow {
    /// What is at the output path may be replaced.
    pub closed spec fn force(&self) -> bool {
        self.force
    }

    /// What is to be done.
    pub closed spec fn at(&self) -> DirectStep {
        self.step
    }

    /// An extraction before its first step.
    pub fn new(force: bool) -> (flow: Self)
        ensures
            flow.force() == force,
            flow.at() == DirectStep::Probe,
    {
        DirectFlow { force, step: DirectStep::Probe }
    }

    /// What is to be done.
    pub fn step(&self) -> (step: DirectStep)
        ensures
            step == self.at(),
    {
        self.step
    }

    /// The extraction after its step went as `result` says.
    pub fn after(self, result: RunEnd, present: bool) -> (next: Self)
        ensures
            next.force() == self.force(),
            next.at() == direct_next(self.force(), self.at(), result, present),
    {
        let failed = DirectStep::End { end: RunEnd::Failed };
        let went_well = result == RunEnd::Finished;
        let step = match self.step {
            DirectStep::Probe => if went_well {
                DirectStep::CheckOutput
            } else {
                failed
            },
            DirectStep::CheckOutput => if !went_well {
                failed
            } else if self.force && present {
                DirectStep::ClearOutput
            } else {
                DirectStep::MakeOutput
            },
            DirectStep::ClearOutput => if went_well {
                DirectStep::MakeOutput
            } else {
                failed
            },
            DirectStep::MakeOutput => if went_well {
                DirectStep::Announce
            } else {
                failed
            },
            DirectStep::Announce => DirectStep::CountFiles,
            DirectStep::CountFiles => DirectStep::RunProgram,
            DirectStep::RunProgram => match result {
                RunEnd::Finished => DirectStep::Report,
                RunEnd::Cancelled => if present {
                    DirectStep::RemoveOutput
                } else {
                    DirectStep::End { end: RunEnd::Cancelled }
                },
                RunEnd::Failed => failed,
            },
            DirectStep::RemoveOutput => DirectStep::End { end: RunEnd::Cancelled },
            DirectStep::Report => DirectStep::End { end: RunEnd::Finished },
            DirectStep::End { end } => DirectStep::End { end },
        };
        DirectFlow { force: self.force, step }
    }
}

} // verus!
