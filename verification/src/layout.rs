//! Where an extraction writes, and how what it wrote is put in place.
//!
//! Files are written to a hidden staging directory next to the output directory. Once all of
//! them are there, the staging directory is renamed to the output directory. An output
//! directory that is to be replaced is moved aside first, and moved back if the renaming fails.

use vstd::prelude::*;
use vstd::utf8::encode_utf8;

use crate::numbers::{decimal, decimal_text};
use crate::paths::{directory, directory_of, join_path, join_paths};
use crate::text::copy_bytes;

verus! {

// ---------------------------------------------------------------------------
// The layout
// ---------------------------------------------------------------------------

/// The directories of one extraction.
#[derive(Debug)]
pub struct OutputLayout {
    /// The final destination.
    pub output_dir: Vec<u8>,
    /// The hidden sibling that files are written to.
    pub staging_dir: Vec<u8>,
    /// Where an output directory that is to be replaced is moved to.
    pub backup_dir: Option<Vec<u8>>,
}

/// What a layout holds.
#[verifier::ext_equal]
pub ghost struct LayoutView {
    pub output: Seq<u8>,
    pub staging: Seq<u8>,
    pub backup: Option<Seq<u8>>,
}

/// The bytes in `bytes`, where there are any.
pub open spec fn option_bytes(bytes: Option<Vec<u8>>) -> Option<Seq<u8>> {
    match bytes {
        Some(b) => Some(b@),
        None => None,
    }
}

impl View for OutputLayout {
    type V = LayoutView;

    open spec fn view(&self) -> LayoutView {
        LayoutView {
            output: self.output_dir@,
            staging: self.staging_dir@,
            backup: option_bytes(self.backup_dir),
        }
    }
}

/// The output path is taken, and may not be overwritten.
#[derive(Debug)]
pub struct OutputTaken {
    pub path: Vec<u8>,
}

/// The name of the staging directory of the process `pid` that starts `millis` milliseconds
/// after the epoch.
pub open spec fn staging_text(pid: u32, millis: u128) -> Seq<char> {
    ".gogextract-tmp-"@ + decimal(pid as nat) + "-"@ + decimal(millis as nat)
}

/// The name of the staging directory, as bytes.
pub open spec fn staging_name(pid: u32, millis: u128) -> Seq<u8> {
    encode_utf8(staging_text(pid, millis))
}

/// The name that the previous output is kept under, as bytes.
pub open spec fn backup_name(pid: u32, millis: u128) -> Seq<u8> {
    encode_utf8(staging_text(pid, millis) + "-prev"@)
}

/// The layout for an extraction to `output`. There is a backup where the output is to be
/// replaced and is there (`present`).
pub open spec fn layout_for(
    output: Seq<u8>,
    force: bool,
    present: bool,
    pid: u32,
    millis: u128,
    windows: bool,
) -> LayoutView {
    LayoutView {
        output,
        staging: join_path(directory_of(output, windows), staging_name(pid, millis), windows),
        backup: if force && present {
            Some(join_path(directory_of(output, windows), backup_name(pid, millis), windows))
        } else {
            None
        },
    }
}

/// Something may be extracted to a path at which there is something (`present`) or not.
pub open spec fn is_available(present: bool, force: bool) -> bool {
    !present || force
}

/// Whether something may be extracted to `path`, at which there is something (`present`) or not.
pub fn ensure_output_path_available(path: &[u8], present: bool, force: bool) -> (available: Result<
    (),
    OutputTaken,
>)
    ensures
        match available {
            Ok(()) => is_available(present, force),
            Err(taken) => !is_available(present, force) && taken.path@ == path@,
        },
{
    if present && !force {
        return Err(OutputTaken { path: copy_bytes(path) });
    }
    Ok(())
}

/// The name of the staging directory.
fn staging_string(pid: u32, millis: u128) -> (name: String)
    ensures
        name@ == staging_text(pid, millis),
{
    let mut name = ".gogextract-tmp-".to_owned();
    name.append(decimal_text(pid as u128).as_str());
    name.append("-");
    name.append(decimal_text(millis).as_str());
    name
}

/// The path of the staging directory in `parent`.
pub fn create_staging_dir(parent: &[u8], pid: u32, millis: u128, windows: bool) -> (path: Vec<u8>)
    ensures
        path@ == join_path(parent@, staging_name(pid, millis), windows),
{
    let name = staging_string(pid, millis);
    join_paths(parent, name.as_str().as_bytes(), windows)
}

/// The directories of an extraction to `output_dir`. There was something at that path before the
/// staging directory was made (`was_present`) or not, and there is something at it now (`present`) or
/// not.
pub fn prepare_output_layout(
    output_dir: &[u8],
    force: bool,
    was_present: bool,
    present: bool,
    pid: u32,
    millis: u128,
    windows: bool,
) -> (layout: Result<OutputLayout, OutputTaken>)
    ensures
        match layout {
            Ok(layout) => {
                &&& is_available(was_present, force)
                &&& layout@ == layout_for(output_dir@, force, present, pid, millis, windows)
            },
            Err(taken) => !is_available(was_present, force) && taken.path@ == output_dir@,
        },
{
    match ensure_output_path_available(output_dir, was_present, force) {
        Ok(()) => {},
        Err(taken) => {
            return Err(taken);
        },
    }
    let parent = directory(output_dir, windows);
    let staging_dir = create_staging_dir(parent.as_slice(), pid, millis, windows);
    let backup_dir = if force && present {
        let mut name = staging_string(pid, millis);
        name.append("-prev");
        Some(join_paths(parent.as_slice(), name.as_str().as_bytes(), windows))
    } else {
        None
    };
    Ok(OutputLayout { output_dir: copy_bytes(output_dir), staging_dir, backup_dir })
}

// ---------------------------------------------------------------------------
// Cleaning up
// ---------------------------------------------------------------------------

/// Remembers that the staging directory is to be removed when an extraction ends early.
#[derive(Debug)]
pub struct StagingCleanup {
    staging_dir: Vec<u8>,
    armed: bool,
}

impl StagingCleanup {
    /// The directory that is to be removed, while one is.
    pub closed spec fn pending(&self) -> Option<Seq<u8>> {
        if self.armed {
            Some(self.staging_dir@)
        } else {
            None
        }
    }

    /// The staging directory is to be removed.
    pub fn new(staging_dir: &[u8]) -> (cleanup: Self)
        ensures
            cleanup.pending() == Some(staging_dir@),
    {
        StagingCleanup { staging_dir: copy_bytes(staging_dir), armed: true }
    }

    /// Nothing is to be removed any more.
    pub fn disarm(&mut self)
        ensures
            final(self).pending() is None,
    {
        self.armed = false;
    }

    /// The directory to remove.
    pub fn to_remove(&self) -> (dir: Option<Vec<u8>>)
        ensures
            option_bytes(dir) == self.pending(),
    {
        if self.armed {
            Some(copy_bytes(self.staging_dir.as_slice()))
        } else {
            None
        }
    }
}

// ---------------------------------------------------------------------------
// Putting in place
// ---------------------------------------------------------------------------

/// Why the extracted files are not in place, or not all is tidy.
#[derive(Debug)]
pub enum FinalizeError {
    /// The previous output could not be moved aside.
    MoveAside(String),
    /// The staging directory could not be renamed.
    MoveIntoPlace(String),
    /// The staging directory could not be renamed, nor the previous output moved back.
    Restore { cause: String, rename_cause: String },
    /// The previous output could not be removed.
    RemoveBackup(String),
}

/// What an error holds.
pub ghost enum FinalizeErrorView {
    MoveAside(Seq<char>),
    MoveIntoPlace(Seq<char>),
    Restore { cause: Seq<char>, rename_cause: Seq<char> },
    RemoveBackup(Seq<char>),
}

impl View for FinalizeError {
    type V = FinalizeErrorView;

    open spec fn view(&self) -> FinalizeErrorView {
        match self {
            FinalizeError::MoveAside(cause) => FinalizeErrorView::MoveAside(cause@),
            FinalizeError::MoveIntoPlace(cause) => FinalizeErrorView::MoveIntoPlace(cause@),
            FinalizeError::Restore { cause, rename_cause } => FinalizeErrorView::Restore {
                cause: cause@,
                rename_cause: rename_cause@,
            },
            FinalizeError::RemoveBackup(cause) => FinalizeErrorView::RemoveBackup(cause@),
        }
    }
}

/// One thing to do on the disk.
#[derive(Debug)]
pub enum DiskAction {
    Rename { from: Vec<u8>, to: Vec<u8> },
    Remove { path: Vec<u8> },
}

/// What an action holds.
pub ghost enum ActionView {
    Rename { from: Seq<u8>, to: Seq<u8> },
    Remove { path: Seq<u8> },
}

impl View for DiskAction {
    type V = ActionView;

    open spec fn view(&self) -> ActionView {
        match self {
            DiskAction::Rename { from, to } => ActionView::Rename { from: from@, to: to@ },
            DiskAction::Remove { path } => ActionView::Remove { path: path@ },
        }
    }
}

/// How far the output has been put in place.
#[derive(Debug)]
enum Stage {
    MoveAside,
    MoveIntoPlace,
    Restore { rename_cause: String },
    RemoveBackup,
    Finished,
    Failed(FinalizeError),
}

/// How far the output has been put in place.
pub ghost enum StageView {
    /// The previous output is to be moved aside.
    MoveAside,
    /// The staging directory is to be renamed.
    MoveIntoPlace,
    /// The previous output is to be moved back.
    Restore { rename_cause: Seq<char> },
    /// The previous output is to be removed.
    RemoveBackup,
    /// The output is in place.
    Finished,
    /// It is not, or the previous output is still there.
    Failed(FinalizeErrorView),
}

impl Stage {
    spec fn model(&self) -> StageView {
        match self {
            Stage::MoveAside => StageView::MoveAside,
            Stage::MoveIntoPlace => StageView::MoveIntoPlace,
            Stage::Restore { rename_cause } => StageView::Restore { rename_cause: rename_cause@ },
            Stage::RemoveBackup => StageView::RemoveBackup,
            Stage::Finished => StageView::Finished,
            Stage::Failed(e) => StageView::Failed(e@),
        }
    }
}

/// The first stage for `layout`.
pub open spec fn first_stage(layout: LayoutView) -> StageView {
    if layout.backup is Some {
        StageView::MoveAside
    } else {
        StageView::MoveIntoPlace
    }
}

/// The stage after `stage`, whose action failed for the reason given or succeeded.
pub open spec fn next_stage(
    layout: LayoutView,
    stage: StageView,
    failure: Option<Seq<char>>,
) -> StageView {
    match (stage, failure) {
        (StageView::MoveAside, None) => StageView::MoveIntoPlace,
        (StageView::MoveAside, Some(cause)) => StageView::Failed(
            FinalizeErrorView::MoveAside(cause),
        ),
        (StageView::MoveIntoPlace, None) => if layout.backup is Some {
            StageView::RemoveBackup
        } else {
            StageView::Finished
        },
        (StageView::MoveIntoPlace, Some(cause)) => if layout.backup is Some {
            StageView::Restore { rename_cause: cause }
        } else {
            StageView::Failed(FinalizeErrorView::MoveIntoPlace(cause))
        },
        (StageView::Restore { rename_cause }, None) => StageView::Failed(
            FinalizeErrorView::MoveIntoPlace(rename_cause),
        ),
        (StageView::Restore { rename_cause }, Some(cause)) => StageView::Failed(
            FinalizeErrorView::Restore { cause, rename_cause },
        ),
        (StageView::RemoveBackup, None) => StageView::Finished,
        (StageView::RemoveBackup, Some(cause)) => StageView::Failed(
            FinalizeErrorView::RemoveBackup(cause),
        ),
        (ended, _) => ended,
    }
}

/// What is to be done in `stage`.
pub open spec fn action_in(layout: LayoutView, stage: StageView) -> Option<ActionView> {
    match (stage, layout.backup) {
        (StageView::MoveAside, Some(backup)) => Some(
            ActionView::Rename { from: layout.output, to: backup },
        ),
        (StageView::MoveIntoPlace, _) => Some(
            ActionView::Rename { from: layout.staging, to: layout.output },
        ),
        (StageView::Restore { .. }, Some(backup)) => Some(
            ActionView::Rename { from: backup, to: layout.output },
        ),
        (StageView::RemoveBackup, Some(backup)) => Some(ActionView::Remove { path: backup }),
        _ => None,
    }
}

/// The text of a failure.
pub open spec fn failure_of(result: Result<(), String>) -> Option<Seq<char>> {
    match result {
        Ok(()) => None,
        Err(cause) => Some(cause@),
    }
}

/// The putting in place of an output, one action at a time.
#[derive(Debug)]
pub struct Finalize {
    layout: OutputLayout,
    stage: Stage,
}

impl Finalize {
    /// The directories it is about.
    pub closed spec fn layout(&self) -> LayoutView {
        self.layout@
    }

    /// How far it is.
    pub closed spec fn stage(&self) -> StageView {
        self.stage.model()
    }

    /// What is to be done next. There is nothing at the end.
    pub fn action(&self) -> (action: Option<DiskAction>)
        ensures
            match action {
                Some(a) => action_in(self.layout(), self.stage()) == Some(a@),
                None => action_in(self.layout(), self.stage()) is None,
            },
    {
        let output = &self.layout.output_dir;
        match (&self.stage, &self.layout.backup_dir) {
            (Stage::MoveAside, Some(backup)) => Some(
                DiskAction::Rename {
                    from: copy_bytes(output.as_slice()),
                    to: copy_bytes(backup.as_slice()),
                },
            ),
            (Stage::MoveIntoPlace, _) => Some(
                DiskAction::Rename {
                    from: copy_bytes(self.layout.staging_dir.as_slice()),
                    to: copy_bytes(output.as_slice()),
                },
            ),
            (Stage::Restore { .. }, Some(backup)) => Some(
                DiskAction::Rename {
                    from: copy_bytes(backup.as_slice()),
                    to: copy_bytes(output.as_slice()),
                },
            ),
            (Stage::RemoveBackup, Some(backup)) => Some(
                DiskAction::Remove { path: copy_bytes(backup.as_slice()) },
            ),
            _ => None,
        }
    }

    /// The run after the action of this stage came to `result`.
    pub fn after(self, result: Result<(), String>) -> (next: Self)
        ensures
            next.layout() == self.layout(),
            next.stage() == next_stage(self.layout(), self.stage(), failure_of(result)),
    {
        let layout = self.layout;
        let has_backup = layout.backup_dir.is_some();
        let stage = match (self.stage, result) {
            (Stage::MoveAside, Ok(())) => Stage::MoveIntoPlace,
            (Stage::MoveAside, Err(cause)) => Stage::Failed(FinalizeError::MoveAside(cause)),
            (Stage::MoveIntoPlace, Ok(())) => if has_backup {
                Stage::RemoveBackup
            } else {
                Stage::Finished
            },
            (Stage::MoveIntoPlace, Err(cause)) => if has_backup {
                Stage::Restore { rename_cause: cause }
            } else {
                Stage::Failed(FinalizeError::MoveIntoPlace(cause))
            },
            (Stage::Restore { rename_cause }, Ok(())) => Stage::Failed(
                FinalizeError::MoveIntoPlace(rename_cause),
            ),
            (Stage::Restore { rename_cause }, Err(cause)) => Stage::Failed(
                FinalizeError::Restore { cause, rename_cause },
            ),
            (Stage::RemoveBackup, Ok(())) => Stage::Finished,
            (Stage::RemoveBackup, Err(cause)) => Stage::Failed(FinalizeError::RemoveBackup(cause)),
            (ended, _) => ended,
        };
        Finalize { layout, stage }
    }

    /// What the run came to, once it has ended.
    pub fn outcome(self) -> (outcome: Option<Result<(), FinalizeError>>)
        ensures
            match outcome {
                Some(Ok(())) => self.stage() is Finished,
                Some(Err(e)) => self.stage() == StageView::Failed(e@),
                None => !(self.stage() is Finished) && !(self.stage() is Failed),
            },
    {
        match self.stage {
            Stage::Finished => Some(Ok(())),
            Stage::Failed(e) => Some(Err(e)),
            _ => None,
        }
    }
}

/// Starts to put the output of `layout` in place.
pub fn finalize_output(layout: OutputLayout) -> (run: Finalize)
    ensures
        run.layout() == layout@,
        run.stage() == first_stage(layout@),
{
    let stage = if layout.backup_dir.is_some() {
        Stage::MoveAside
    } else {
        Stage::MoveIntoPlace
    };
    Finalize { layout, stage }
}

} // verus!
