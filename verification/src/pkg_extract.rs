//! The extraction of a package, one step at a time.
//!
//! The steps are decided here and carried out by the caller, who says before each step whether
//! the run is still wanted.

use vstd::prelude::*;
use vstd::slice::slice_subrange;

use crate::cpio::{cpio_file, cpio_files, lemma_file_takes_bytes, next_cpio_file};
use crate::cpio::{CpioEntry, CpioEntryView, Found};
use crate::numbers::counted;
use crate::pkg::{decode_payload_bytes, payload};
use crate::pkg_error::{PkgError, PkgErrorView};
use crate::reader::ByteReader;
use crate::safe_path::{safe_path, sanitize_cpio_path};
use crate::select::{component_label, component_name};
use crate::toc::{entries_view, EntryKind, EntryView, PayloadEntry};
use crate::xar::XarHeader;

verus! {

/// A file to be written.
#[derive(Debug)]
pub struct FileWrite {
    /// The directory below the output directory that the path starts from, where the package
    /// has more than one archive.
    pub component: Option<String>,
    /// Where the file goes.
    pub path: String,
    /// The permission bits to set, where there are any.
    pub permissions: Option<u32>,
    /// What the file holds.
    pub body: Vec<u8>,
    /// How many files are written once this one is.
    pub files_done: u64,
}

/// What the caller does next.
#[derive(Debug)]
pub enum ExtractStep {
    /// Warn that the files of a component come from its `Scripts`.
    WarnScripts(String),
    /// Warn that an entry of that name is passed over, as its path is not safe.
    WarnUnsafe(String),
    /// Write a file.
    Write(FileWrite),
    /// Stop: everything is extracted.
    Finished,
    /// Stop: the run is no longer wanted.
    Cancelled,
}

/// What one step holds, with the errors that end a run among the steps.
pub ghost enum StepView {
    WarnScripts(Seq<char>),
    WarnUnsafe(Seq<char>),
    Write {
        component: Option<Seq<char>>,
        path: Seq<char>,
        permissions: Option<u32>,
        body: Seq<u8>,
        files_done: u64,
    },
    Finished,
    Failed(PkgErrorView),
}

/// The text in `text`, where there is one.
pub open spec fn option_text(text: Option<String>) -> Option<Seq<char>> {
    match text {
        Some(t) => Some(t@),
        None => None,
    }
}

/// The permission bits in `mode`, where any is set.
pub open spec fn permission_bits(mode: u32) -> Option<u32> {
    if mode & 0o7777 == 0 {
        None
    } else {
        Some(mode & 0o7777)
    }
}

/// The step for one file of an archive, after `done` files were written.
pub open spec fn file_step(
    file: CpioEntryView,
    body: Seq<u8>,
    component: Option<Seq<char>>,
    windows: bool,
    done: u64,
) -> StepView {
    match safe_path(file.name, windows) {
        None => StepView::WarnUnsafe(file.name),
        Some(path) => StepView::Write {
            component,
            path,
            permissions: permission_bits(file.mode),
            body,
            files_done: counted(done + 1),
        },
    }
}

/// How many files are written after `step`.
pub open spec fn done_after(step: StepView, done: u64) -> u64 {
    match step {
        StepView::Write { files_done, .. } => files_done,
        _ => done,
    }
}

/// The steps for the files of an archive.
pub open spec fn file_steps(
    files: Seq<(CpioEntryView, Seq<u8>)>,
    component: Option<Seq<char>>,
    windows: bool,
    done: u64,
) -> Seq<StepView>
    decreases files.len(),
{
    if files.len() == 0 {
        Seq::empty()
    } else {
        let step = file_step(files[0].0, files[0].1, component, windows, done);
        seq![step] + file_steps(files.drop_first(), component, windows, done_after(step, done))
    }
}

/// How many files are written after those of an archive.
pub open spec fn done_after_files(
    files: Seq<(CpioEntryView, Seq<u8>)>,
    component: Option<Seq<char>>,
    windows: bool,
    done: u64,
) -> u64
    decreases files.len(),
{
    if files.len() == 0 {
        done
    } else {
        let step = file_step(files[0].0, files[0].1, component, windows, done);
        done_after_files(files.drop_first(), component, windows, done_after(step, done))
    }
}

/// The directory that the files of `entry` go to, where archives are kept apart.
pub open spec fn directory_for(entry: EntryView, apart: bool) -> Option<Seq<char>> {
    if apart {
        Some(component_label(entry.full_path))
    } else {
        None
    }
}

/// The steps for an archive of which `archive` is still to be read, and for the entries `rest`
/// after it.
pub open spec fn archive_steps(
    data: Seq<u8>,
    header: XarHeader,
    archive: Seq<u8>,
    component: Option<Seq<char>>,
    rest: Seq<EntryView>,
    apart: bool,
    windows: bool,
    done: u64,
) -> Seq<StepView>
    decreases rest.len(), 2int,
{
    let run = cpio_files(archive);
    file_steps(run.files, component, windows, done) + match run.error {
        Some(e) => seq![StepView::Failed(PkgErrorView::Archive(e))],
        None => entry_steps(
            data,
            header,
            rest,
            apart,
            windows,
            done_after_files(run.files, component, windows, done),
        ),
    }
}

/// The steps for the entries `entries`, of which the first has been warned of where it asks for
/// that.
pub open spec fn warned_steps(
    data: Seq<u8>,
    header: XarHeader,
    entries: Seq<EntryView>,
    apart: bool,
    windows: bool,
    done: u64,
) -> Seq<StepView>
    decreases entries.len(), 0int,
{
    if entries.len() == 0 {
        seq![StepView::Finished]
    } else {
        match payload(data, header, entries[0]) {
            Err(e) => seq![StepView::Failed(e)],
            Ok(archive) => archive_steps(
                data,
                header,
                archive,
                directory_for(entries[0], apart),
                entries.drop_first(),
                apart,
                windows,
                done,
            ),
        }
    }
}

/// The steps for the entries `entries`, after `done` files were written.
pub open spec fn entry_steps(
    data: Seq<u8>,
    header: XarHeader,
    entries: Seq<EntryView>,
    apart: bool,
    windows: bool,
    done: u64,
) -> Seq<StepView>
    decreases entries.len(), 1int,
{
    if entries.len() > 0 && entries[0].kind == EntryKind::Scripts {
        seq![StepView::WarnScripts(component_label(entries[0].full_path))] + warned_steps(
            data,
            header,
            entries,
            apart,
            windows,
            done,
        )
    } else {
        warned_steps(data, header, entries, apart, windows, done)
    }
}

/// The steps of an extraction. Archives are kept apart, each in a directory of its own, where
/// there is more than one.
pub open spec fn extraction_steps(
    data: Seq<u8>,
    header: XarHeader,
    entries: Seq<EntryView>,
    windows: bool,
) -> Seq<StepView> {
    entry_steps(data, header, entries, entries.len() > 1, windows, 0)
}

/// The first step for an archive, by what is read first in it.
proof fn lemma_first_in_archive(
    data: Seq<u8>,
    header: XarHeader,
    archive: Seq<u8>,
    component: Option<Seq<char>>,
    rest: Seq<EntryView>,
    apart: bool,
    windows: bool,
    done: u64,
)
    ensures
        ({
            let steps = archive_steps(
                data,
                header,
                archive,
                component,
                rest,
                apart,
                windows,
                done,
            );
            match cpio_file(archive) {
                Ok(Found::Entry(p)) => {
                    let first = file_step(p.entry, p.body, component, windows, done);
                    &&& steps.len() > 0
                    &&& steps[0] == first
                    &&& steps.drop_first() == archive_steps(
                        data,
                        header,
                        p.rest,
                        component,
                        rest,
                        apart,
                        windows,
                        done_after(first, done),
                    )
                },
                Ok(Found::End { .. }) => steps == entry_steps(
                    data,
                    header,
                    rest,
                    apart,
                    windows,
                    done,
                ),
                Err(e) => steps == seq![StepView::Failed(PkgErrorView::Archive(e))],
            }
        }),
{
    let run = cpio_files(archive);
    let steps = archive_steps(data, header, archive, component, rest, apart, windows, done);
    match cpio_file(archive) {
        Ok(Found::Entry(p)) => {
            let first = file_step(p.entry, p.body, component, windows, done);
            let after = archive_steps(
                data,
                header,
                p.rest,
                component,
                rest,
                apart,
                windows,
                done_after(first, done),
            );
            assert(run.files.drop_first() =~= cpio_files(p.rest).files);
            assert(steps =~= seq![first] + after);
            assert(steps.drop_first() =~= after);
        },
        Ok(Found::End { .. }) => {
            assert(steps =~= entry_steps(data, header, rest, apart, windows, done));
        },
        Err(e) => {
            assert(steps =~= seq![StepView::Failed(PkgErrorView::Archive(e))]);
        },
    }
}

/// A step that is not taken once the run is no longer wanted.
pub open spec fn handles_file(step: StepView) -> bool {
    step is Write || step is WarnUnsafe
}

/// `step` is the step that `meaning` tells of.
pub open spec fn step_agrees(step: ExtractStep, meaning: StepView) -> bool {
    match step {
        ExtractStep::WarnScripts(component) => meaning == StepView::WarnScripts(component@),
        ExtractStep::WarnUnsafe(name) => meaning == StepView::WarnUnsafe(name@),
        ExtractStep::Write(write) => meaning == (StepView::Write {
            component: option_text(write.component),
            path: write.path@,
            permissions: write.permissions,
            body: write.body@,
            files_done: write.files_done,
        }),
        ExtractStep::Finished => meaning == StepView::Finished,
        ExtractStep::Cancelled => false,
    }
}

/// The step for one file of an archive.
fn step_for_file(
    file: CpioEntry,
    body: Vec<u8>,
    component: Option<String>,
    windows: bool,
    done: u64,
) -> (step: ExtractStep)
    ensures
        step_agrees(step, file_step(file@, body@, option_text(component), windows, done)),
        step is Write || step is WarnUnsafe,
{
    match sanitize_cpio_path(file.name.as_str(), windows) {
        None => ExtractStep::WarnUnsafe(file.name),
        Some(path) => {
            let bits: u32 = file.mode & 0o7777;
            let files_done: u64 = done.wrapping_add(1);
            assert(files_done == counted(done + 1)) by {
                reveal(counted);
            }
            let permissions = if bits == 0 {
                None
            } else {
                Some(bits)
            };
            ExtractStep::Write(FileWrite { component, path, permissions, body, files_done })
        },
    }
}

/// An archive that is being read.
struct OpenArchive {
    bytes: Vec<u8>,
    /// How many of the bytes have been read.
    at: usize,
    /// The directory that its files go to, where archives are kept apart.
    component: Option<String>,
}

/// An extraction under way.
pub struct PkgExtraction<'a> {
    data: &'a [u8],
    header: XarHeader,
    entries: &'a [PayloadEntry],
    /// How many entries have been opened.
    opened: usize,
    /// The entry to open next has been warned of.
    warned: bool,
    archive: Option<OpenArchive>,
    /// Paths are those of Windows.
    windows: bool,
    files_done: u64,
}

impl<'a> PkgExtraction<'a> {
    /// Positions lie in what they are positions of.
    pub closed spec fn wf(&self) -> bool {
        &&& self.opened <= self.entries@.len()
        &&& self.warned ==> self.opened < self.entries@.len() && self.archive is None
        &&& self.archive matches Some(archive) ==> archive.at <= archive.bytes@.len()
    }

    /// The steps that are still to be taken.
    pub closed spec fn pending(&self) -> Seq<StepView> {
        let all = entries_view(self.entries@);
        let rest = all.skip(self.opened as int);
        let apart = all.len() > 1;
        match self.archive {
            Some(archive) => archive_steps(
                self.data@,
                self.header,
                archive.bytes@.skip(archive.at as int),
                option_text(archive.component),
                rest,
                apart,
                self.windows,
                self.files_done,
            ),
            None => if self.warned {
                warned_steps(self.data@, self.header, rest, apart, self.windows, self.files_done)
            } else {
                entry_steps(self.data@, self.header, rest, apart, self.windows, self.files_done)
            },
        }
    }

    /// How many files have been handed out to be written.
    pub closed spec fn written(&self) -> u64 {
        self.files_done
    }

    /// How many files have been handed out to be written.
    pub fn files_written(&self) -> (written: u64)
        ensures
            written == self.written(),
    {
        self.files_done
    }

    /// An extraction of `entries` before its first step, with the paths of Windows or not.
    pub fn new(
        data: &'a [u8],
        header: XarHeader,
        entries: &'a [PayloadEntry],
        windows: bool,
    ) -> (run: Self)
        ensures
            run.wf(),
            run.pending() == extraction_steps(data@, header, entries_view(entries@), windows),
            run.written() == 0,
    {
        assert(entries_view(entries@).skip(0) =~= entries_view(entries@));
        PkgExtraction {
            data,
            header,
            entries,
            opened: 0,
            warned: false,
            archive: None,
            windows,
            files_done: 0,
        }
    }

    /// The steps still to be taken while `archive` is being read.
    closed spec fn pending_in(&self, archive: OpenArchive) -> Seq<StepView> {
        let all = entries_view(self.entries@);
        archive_steps(
            self.data@,
            self.header,
            archive.bytes@.skip(archive.at as int),
            option_text(archive.component),
            all.skip(self.opened as int),
            all.len() > 1,
            self.windows,
            self.files_done,
        )
    }

    /// Takes the next step in `archive`, which is kept open unless nothing is left in it.
    fn step_in(&mut self, archive: OpenArchive, running: bool) -> (step: Result<
        Option<ExtractStep>,
        PkgError,
    >)
        requires
            old(self).wf(),
            old(self).archive is None,
            !old(self).warned,
            archive.at <= archive.bytes@.len(),
        ensures
            final(self).wf(),
            final(self).entries == old(self).entries,
            final(self).opened == old(self).opened,
            final(self).written() == match step {
                Ok(Some(ExtractStep::Write(write))) => write.files_done,
                _ => old(self).written(),
            },
            step matches Ok(Some(ExtractStep::Write(write))) ==> write.files_done == counted(
                old(self).written() + 1,
            ),
            match step {
                Ok(None) => {
                    &&& final(self).archive is None
                    &&& final(self).pending() == old(self).pending_in(archive)
                },
                Ok(Some(ExtractStep::Cancelled)) => {
                    &&& !running
                    &&& old(self).pending_in(archive).len() > 0
                    &&& handles_file(old(self).pending_in(archive)[0])
                    &&& final(self).pending() == old(self).pending_in(archive)
                },
                Ok(Some(step)) => {
                    &&& running
                    &&& !(step is Finished)
                    &&& old(self).pending_in(archive).len() > 0
                    &&& step_agrees(step, old(self).pending_in(archive)[0])
                    &&& final(self).pending() == old(self).pending_in(archive).drop_first()
                },
                Err(e) => {
                    &&& old(self).pending_in(archive).len() > 0
                    &&& old(self).pending_in(archive)[0] == StepView::Failed(e@)
                    &&& final(self).pending() == old(self).pending_in(archive)
                },
            },
    {
        let ghost left = archive.bytes@.skip(archive.at as int);
        let ghost component = option_text(archive.component);
        let ghost all = entries_view(self.entries@);
        let len: usize = archive.bytes.len();
        let mut reader = ByteReader::new(
            slice_subrange(archive.bytes.as_slice(), archive.at, len),
        );
        proof {
            lemma_file_takes_bytes(left);
            lemma_first_in_archive(
                self.data@,
                self.header,
                left,
                component,
                all.skip(self.opened as int),
                all.len() > 1,
                self.windows,
                self.files_done,
            );
            assert(reader@ =~= left);
        }
        let read = next_cpio_file(&mut reader);
        let remaining: usize = reader.remaining();
        match read {
            Ok(Some((file, body))) => {
                if !running {
                    self.archive = Some(archive);
                    return Ok(Some(ExtractStep::Cancelled));
                }
                let step = step_for_file(
                    file,
                    body,
                    archive.component.clone(),
                    self.windows,
                    self.files_done,
                );
                if let ExtractStep::Write(write) = &step {
                    self.files_done = write.files_done;
                }
                let after = OpenArchive {
                    bytes: archive.bytes,
                    at: len - remaining,
                    component: archive.component,
                };
                assert(after.bytes@.skip(after.at as int) =~= reader@);
                self.archive = Some(after);
                Ok(Some(step))
            },
            Ok(None) => Ok(None),
            Err(e) => {
                self.archive = Some(archive);
                Err(PkgError::Archive(e))
            },
        }
    }

    /// Takes the next step. While the run is not wanted (`running` is false) no file is handled:
    /// the step in its place is to stop. A step that stops the run is given again when asked
    /// for again.
    pub fn step(&mut self, running: bool) -> (step: Result<ExtractStep, PkgError>)
        requires
            old(self).wf(),
        ensures
            final(self).wf(),
            old(self).pending().len() > 0,
            final(self).written() == match step {
                Ok(ExtractStep::Write(write)) => write.files_done,
                _ => old(self).written(),
            },
            step matches Ok(ExtractStep::Write(write)) ==> write.files_done == counted(
                old(self).written() + 1,
            ),
            match step {
                Ok(ExtractStep::Cancelled) => {
                    &&& !running
                    &&& handles_file(old(self).pending()[0])
                    &&& final(self).pending() == old(self).pending()
                },
                Ok(step) => {
                    &&& running || !handles_file(old(self).pending()[0])
                    &&& step_agrees(step, old(self).pending()[0])
                    &&& final(self).pending() == if step is Finished {
                        old(self).pending()
                    } else {
                        old(self).pending().drop_first()
                    }
                },
                Err(e) => {
                    &&& old(self).pending()[0] == StepView::Failed(e@)
                    &&& final(self).pending() == old(self).pending()
                },
            },
    {
        let count: usize = self.entries.len();
        loop
            invariant
                self.wf(),
                count == self.entries@.len(),
                self.pending() == old(self).pending(),
                self.written() == old(self).written(),
            decreases
                    2 * (count - self.opened) + if self.archive is Some {
                        1int
                    } else {
                        0
                    },
        {
            let ghost all = entries_view(self.entries@);
            let ghost rest = all.skip(self.opened as int);
            match self.archive.take() {
                Some(archive) => {
                    match self.step_in(archive, running) {
                        Ok(None) => {},
                        Ok(Some(step)) => {
                            return Ok(step);
                        },
                        Err(e) => {
                            return Err(e);
                        },
                    }
                },
                None => {
                    if self.opened == count {
                        return Ok(ExtractStep::Finished);
                    }
                    let data = self.data;
                    let header = self.header;
                    let entry = &self.entries[self.opened];
                    assert(rest[0] == entry@);
                    assert(rest.drop_first() =~= all.skip(self.opened + 1));
                    if entry.kind == EntryKind::Scripts && !self.warned {
                        let component = component_name(entry.full_path.as_str());
                        self.warned = true;
                        assert(old(self).pending().drop_first() =~= self.pending());
                        return Ok(ExtractStep::WarnScripts(component));
                    }
                    match decode_payload_bytes(data, &header, entry) {
                        Err(e) => {
                            return Err(e);
                        },
                        Ok(bytes) => {
                            let component = if count > 1 {
                                Some(component_name(entry.full_path.as_str()))
                            } else {
                                None
                            };
                            assert(bytes@.skip(0) =~= bytes@);
                            self.archive = Some(OpenArchive { bytes, at: 0, component });
                            self.opened = self.opened + 1;
                            self.warned = false;
                        },
                    }
                },
            }
        }
    }
}

} // verus!
