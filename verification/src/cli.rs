//! What the command line asks for.

use vstd::prelude::*;

use crate::detect::InstallerKind;
use crate::layout::option_bytes;

verus! {

/// The arguments of the program.
#[derive(Debug)]
pub struct Args {
    /// The installer to extract.
    pub input_file: Option<Vec<u8>>,
    /// Where to extract it to.
    pub output_dir: Option<Vec<u8>>,
    /// Replace output that is there.
    pub force: bool,
    /// List what would be extracted.
    pub list: bool,
    /// Open the window.
    pub gui: bool,
}

/// How the program is to run.
#[derive(Debug)]
pub enum Mode {
    /// Open the window.
    Gui,
    /// Work on an installer.
    Cli { input_file: Vec<u8>, output_dir: Option<Vec<u8>>, force: bool, list: bool },
    /// There is nothing to work on.
    NoInput,
}

/// How the program is to run.
pub ghost enum ModeView {
    Gui,
    Cli { input_file: Seq<u8>, output_dir: Option<Seq<u8>>, force: bool, list: bool },
    NoInput,
}

impl View for Mode {
    type V = ModeView;

    open spec fn view(&self) -> ModeView {
        match self {
            Mode::Gui => ModeView::Gui,
            Mode::Cli { input_file, output_dir, force, list } => ModeView::Cli {
                input_file: input_file@,
                output_dir: option_bytes(*output_dir),
                force: *force,
                list: *list,
            },
            Mode::NoInput => ModeView::NoInput,
        }
    }
}

/// How the program is to run. A program that has a window (`gui_built`) opens it on request, and
/// where no installer is given. One without a window reports that none is given.
pub open spec fn mode_for(args: Args, gui_built: bool) -> ModeView {
    if gui_built && (args.gui || args.input_file is None) {
        ModeView::Gui
    } else {
        match args.input_file {
            Some(input) => ModeView::Cli {
                input_file: input@,
                output_dir: option_bytes(args.output_dir),
                force: args.force,
                list: args.list,
            },
            None => ModeView::NoInput,
        }
    }
}

/// Decides how the program is to run.
pub fn run(args: Args, gui_built: bool) -> (mode: Mode)
    ensures
        mode@ == mode_for(args, gui_built),
        !gui_built ==> !(mode@ is Gui),
{
    if gui_built && (args.gui || args.input_file.is_none()) {
        return Mode::Gui;
    }
    match args.input_file {
        Some(input_file) => Mode::Cli {
            input_file,
            output_dir: args.output_dir,
            force: args.force,
            list: args.list,
        },
        None => Mode::NoInput,
    }
}

/// What is done with an installer.
#[derive(Debug, Clone, Copy, PartialEq, Eq, Structural)]
pub enum Job {
    ListInno,
    ExtractInno,
    ListMojo,
    ExtractMojo,
    ListPkg,
    ExtractPkg,
}

/// What is done with an installer of the kind `kind`.
pub open spec fn job_for(kind: InstallerKind, list: bool) -> Job {
    match kind {
        InstallerKind::Inno => if list {
            Job::ListInno
        } else {
            Job::ExtractInno
        },
        InstallerKind::MojoSetup => if list {
            Job::ListMojo
        } else {
            Job::ExtractMojo
        },
        InstallerKind::Pkg => if list {
            Job::ListPkg
        } else {
            Job::ExtractPkg
        },
    }
}

/// What is done with an installer of the kind `kind`.
pub fn run_cli(kind: InstallerKind, list: bool) -> (job: Job)
    ensures
        job == job_for(kind, list),
{
    match (kind, list) {
        (InstallerKind::Inno, true) => Job::ListInno,
        (InstallerKind::Inno, false) => Job::ExtractInno,
        (InstallerKind::MojoSetup, true) => Job::ListMojo,
        (InstallerKind::MojoSetup, false) => Job::ExtractMojo,
        (InstallerKind::Pkg, true) => Job::ListPkg,
        (InstallerKind::Pkg, false) => Job::ExtractPkg,
    }
}

/// The largest file that is mapped into memory where addresses have thirty-two bits.
pub const MAX_MAPPED_NARROW: u64 = 2147483648;

/// A file of `len` bytes can be mapped into memory. There is no limit unless addresses are narrow.
pub open spec fn is_mappable(len: u64, narrow_addresses: bool) -> bool {
    narrow_addresses ==> len <= MAX_MAPPED_NARROW
}

/// Whether a file of `len` bytes can be mapped into memory.
pub fn can_be_mapped(len: u64, narrow_addresses: bool) -> (can: bool)
    ensures
        can == is_mappable(len, narrow_addresses),
{
    !(narrow_addresses && len > MAX_MAPPED_NARROW)
}

/// How the program ends.
#[derive(Debug, Clone, Copy, PartialEq, Eq, Structural)]
pub enum RunOutcome {
    /// An installer was listed or extracted.
    CliSuccess,
    /// The user stopped the extraction.
    CliCancelled,
    /// The window was closed.
    GuiExited,
}

/// How a job ends that got done (`done`) or was stopped.
pub fn cli_outcome(done: bool) -> (outcome: RunOutcome)
    ensures
        outcome == if done {
            RunOutcome::CliSuccess
        } else {
            RunOutcome::CliCancelled
        },
{
    if done {
        RunOutcome::CliSuccess
    } else {
        RunOutcome::CliCancelled
    }
}

/// The code that the program exits with.
pub open spec fn code_for(outcome: Option<RunOutcome>) -> i32 {
    match outcome {
        Some(RunOutcome::CliSuccess) => 0,
        Some(RunOutcome::CliCancelled) => 130,
        Some(RunOutcome::GuiExited) => 0,
        None => 1,
    }
}

/// The code that the program exits with.
pub fn exit_code(outcome: Option<RunOutcome>) -> (code: i32)
    ensures
        code == code_for(outcome),
{
    match outcome {
        Some(RunOutcome::CliSuccess) => 0,
        Some(RunOutcome::CliCancelled) => 130,
        Some(RunOutcome::GuiExited) => 0,
        None => 1,
    }
}

} // verus!
