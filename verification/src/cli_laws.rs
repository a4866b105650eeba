//! What holds of the command line.

use vstd::prelude::*;

use crate::cli::{code_for, is_mappable, job_for, mode_for, Args, Job, ModeView, RunOutcome};
use crate::detect::InstallerKind;

verus! {

/// An installer that is given is worked on, with everything that was asked for along with it,
/// unless the window was asked for and there is one. The window opens where it was asked for or
/// nothing was given, and only in a program that has one; and a program that has none reports that
/// nothing was given.
pub proof fn law_what_is_asked_for_is_done(args: Args, gui_built: bool)
    ensures
        mode_for(args, gui_built) is Gui <==> gui_built && (args.gui || args.input_file is None),
        mode_for(args, gui_built) is NoInput <==> !gui_built && args.input_file is None,
        args.input_file matches Some(input) ==> !(gui_built && args.gui) ==> {
            &&& mode_for(args, gui_built) matches ModeView::Cli {
                input_file,
                output_dir,
                force,
                list,
            }
            &&& input_file == input@
            &&& args.output_dir matches Some(dir) ==> output_dir == Some(dir@)
            &&& args.output_dir is None ==> output_dir is None
            &&& force == args.force
            &&& list == args.list
        },
{
}

/// Listing lists and extracting extracts, each kind of installer in its own way.
pub proof fn law_jobs_are_told_apart(
    kind: InstallerKind,
    list: bool,
    other: InstallerKind,
    otherwise: bool,
)
    ensures
        job_for(kind, list) == job_for(other, otherwise) ==> kind == other && list == otherwise,
        list <==> job_for(kind, list) == Job::ListInno || job_for(kind, list) == Job::ListMojo
            || job_for(kind, list) == Job::ListPkg,
        kind == InstallerKind::Inno <==> job_for(kind, list) == Job::ListInno || job_for(
            kind,
            list,
        ) == Job::ExtractInno,
        kind == InstallerKind::Pkg <==> job_for(kind, list) == Job::ListPkg || job_for(kind, list)
            == Job::ExtractPkg,
{
}

/// The program exits with zero exactly where it did what it was asked to; a run that the user
/// stopped and one that failed can be told apart.
pub proof fn law_exit_codes(outcome: Option<RunOutcome>)
    ensures
        code_for(outcome) == 0 <==> outcome == Some(RunOutcome::CliSuccess) || outcome == Some(
            RunOutcome::GuiExited,
        ),
        code_for(outcome) == 130 <==> outcome == Some(RunOutcome::CliCancelled),
        code_for(outcome) == 1 <==> outcome is None,
{
}

/// Where addresses are wide any file can be mapped, and where they are narrow any of up to two
/// gigabytes.
pub proof fn law_what_can_be_mapped(len: u64, narrow_addresses: bool)
    ensures
        is_mappable(len, false),
        is_mappable(len, true) <==> len <= 2 * 1024 * 1024 * 1024,
{
}

} // verus!
