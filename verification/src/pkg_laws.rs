//! What holds of the listing and of the extraction of a package as a whole.

use vstd::prelude::*;

use crate::cpio::{cpio_entry, cpio_files, newc_magic, CpioEntryView, Found};
use crate::cpio_laws::{law_archive_read_back, newc_archive, regular_files, NewcFile};
use crate::numbers::counted;
use crate::pkg::{blob_end, blob_start, entries_listing, file_total, gzip_magic, payload};
use crate::pkg_error::PkgErrorView;
use crate::pkg_extract::{archive_steps, directory_for, done_after, done_after_files, entry_steps};
use crate::pkg_extract::{extraction_steps, file_step, file_steps, handles_file, warned_steps};
use crate::pkg_extract::StepView;
use crate::safe_path::{law_safe_paths_stay_inside, stays_inside};
use crate::select::component_label;
use crate::text::begins_with;
use crate::toc::{EntryKind, EntryView, HeapEncoding};
use crate::xar::XarHeader;

verus! {

/// The listing of archives has one line for each archive and one for each file; it fails where
/// the count of the files fails, and for the same reason.
pub proof fn law_listing_has_a_line_for_each_file(
    data: Seq<u8>,
    header: XarHeader,
    entries: Seq<EntryView>,
)
    ensures
        match entries_listing(data, header, entries) {
            Ok(lines) => file_total(data, header, entries) == Ok::<nat, PkgErrorView>(
                (lines.len() - entries.len()) as nat,
            ) && lines.len() >= entries.len(),
            Err(e) => file_total(data, header, entries) == Err::<nat, PkgErrorView>(e),
        },
    decreases entries.len(),
{
    if entries.len() > 0 {
        law_listing_has_a_line_for_each_file(data, header, entries.drop_first());
    }
}

// ---------------------------------------------------------------------------
// Steps
// ---------------------------------------------------------------------------

/// How many of `steps` handle a file.
pub open spec fn files_handled(steps: Seq<StepView>) -> nat
    decreases steps.len(),
{
    if steps.len() == 0 {
        0
    } else if handles_file(steps[0]) {
        1 + files_handled(steps.drop_first())
    } else {
        files_handled(steps.drop_first())
    }
}

/// `step` ends a run.
pub open spec fn ends_run(step: StepView) -> bool {
    step is Finished || step is Failed
}

/// The last of `steps` ends a run and no other does.
pub open spec fn end_once(steps: Seq<StepView>) -> bool {
    &&& steps.len() > 0
    &&& ends_run(steps.last())
    &&& forall|i: int| 0 <= i < steps.len() - 1 ==> !ends_run(#[trigger] steps[i])
}

/// How many files are written after `steps`.
pub open spec fn done_after_steps(steps: Seq<StepView>, done: u64) -> u64
    decreases steps.len(),
{
    if steps.len() == 0 {
        done
    } else {
        done_after_steps(steps.drop_first(), done_after(steps[0], done))
    }
}

/// Each file that `steps` write raises the count of written files by one, from `done` on.
pub open spec fn count_up(steps: Seq<StepView>, done: u64) -> bool
    decreases steps.len(),
{
    steps.len() == 0 || {
        &&& steps[0] matches StepView::Write { files_done, .. } ==> files_done == counted(done + 1)
        &&& count_up(steps.drop_first(), done_after(steps[0], done))
    }
}

/// `directory` is where files of one of `entries` go.
pub open spec fn is_directory_of(
    directory: Option<Seq<char>>,
    entries: Seq<EntryView>,
    apart: bool,
) -> bool {
    exists|i: int|
        0 <= i < entries.len() && directory == directory_for(#[trigger] entries[i], apart)
}

/// `step`, where it writes a file, writes it below the directory of one of `entries`.
pub open spec fn writes_inside(
    step: StepView,
    entries: Seq<EntryView>,
    apart: bool,
    windows: bool,
) -> bool {
    step matches StepView::Write { component, path, .. } ==> {
        &&& stays_inside(path, windows)
        &&& is_directory_of(component, entries, apart)
    }
}

proof fn lemma_concat(a: Seq<StepView>, b: Seq<StepView>, done: u64)
    ensures
        files_handled(a + b) == files_handled(a) + files_handled(b),
        done_after_steps(a + b, done) == done_after_steps(b, done_after_steps(a, done)),
        count_up(a, done) && count_up(b, done_after_steps(a, done)) ==> count_up(a + b, done),
    decreases a.len(),
{
    if a.len() == 0 {
        assert(a + b =~= b);
    } else {
        assert((a + b).drop_first() =~= a.drop_first() + b);
        lemma_concat(a.drop_first(), b, done_after(a[0], done));
    }
}

proof fn lemma_file_steps(
    files: Seq<(CpioEntryView, Seq<u8>)>,
    component: Option<Seq<char>>,
    windows: bool,
    done: u64,
)
    ensures
        files_handled(file_steps(files, component, windows, done)) == files.len(),
        done_after_steps(file_steps(files, component, windows, done), done) == done_after_files(
            files,
            component,
            windows,
            done,
        ),
        count_up(file_steps(files, component, windows, done), done),
        forall|i: int|
            0 <= i < file_steps(files, component, windows, done).len() ==> handles_file(
                #[trigger] file_steps(files, component, windows, done)[i],
            ) && (file_steps(files, component, windows, done)[i] matches StepView::Write {
                component: c,
                path,
                ..
            } ==> c == component && stays_inside(path, windows)),
    decreases files.len(),
{
    let steps = file_steps(files, component, windows, done);
    if files.len() > 0 {
        let step = file_step(files[0].0, files[0].1, component, windows, done);
        let next = done_after(step, done);
        let rest = file_steps(files.drop_first(), component, windows, next);
        lemma_file_steps(files.drop_first(), component, windows, next);
        law_safe_paths_stay_inside(files[0].0.name, windows);
        assert(steps.drop_first() =~= rest);
        assert forall|i: int| 0 <= i < steps.len() implies handles_file(#[trigger] steps[i]) && (
        steps[i] matches StepView::Write { component: c, path, .. } ==> c == component
            && stays_inside(path, windows)) by {
            if i > 0 {
                assert(steps[i] == rest[i - 1]);
            }
        }
    }
}

/// What all the steps for `entries` have in common.
spec fn sound(
    steps: Seq<StepView>,
    total: Result<nat, PkgErrorView>,
    entries: Seq<EntryView>,
    apart: bool,
    windows: bool,
    done: u64,
) -> bool {
    &&& end_once(steps)
    &&& count_up(steps, done)
    &&& forall|i: int| 0 <= i < steps.len() ==> writes_inside(
        #[trigger] steps[i],
        entries,
        apart,
        windows,
    )
    &&& match total {
        Ok(n) => steps.last() is Finished && files_handled(steps) == n,
        Err(e) => steps.last() == StepView::Failed(e),
    }
}

proof fn lemma_entry_steps(
    data: Seq<u8>,
    header: XarHeader,
    entries: Seq<EntryView>,
    apart: bool,
    windows: bool,
    done: u64,
)
    ensures
        sound(
            entry_steps(data, header, entries, apart, windows, done),
            file_total(data, header, entries),
            entries,
            apart,
            windows,
            done,
        ),
    decreases entries.len(), 1int,
{
    lemma_warned_steps(data, header, entries, apart, windows, done);
    let steps = entry_steps(data, header, entries, apart, windows, done);
    let warned = warned_steps(data, header, entries, apart, windows, done);
    if steps != warned {
        assert(steps.drop_first() =~= warned);
        assert forall|i: int| 0 <= i < steps.len() implies writes_inside(
            #[trigger] steps[i],
            entries,
            apart,
            windows,
        ) && (i < steps.len() - 1 ==> !ends_run(steps[i])) by {
            if i > 0 {
                assert(steps[i] == warned[i - 1]);
            }
        }
    }
}

proof fn lemma_warned_steps(
    data: Seq<u8>,
    header: XarHeader,
    entries: Seq<EntryView>,
    apart: bool,
    windows: bool,
    done: u64,
)
    ensures
        sound(
            warned_steps(data, header, entries, apart, windows, done),
            file_total(data, header, entries),
            entries,
            apart,
            windows,
            done,
        ),
    decreases entries.len(), 0int,
{
    let steps = warned_steps(data, header, entries, apart, windows, done);
    reveal_with_fuel(files_handled, 2);
    reveal_with_fuel(count_up, 2);
    if entries.len() > 0 {
        if let Ok(archive) = payload(data, header, entries[0]) {
            let rest = entries.drop_first();
            let component = directory_for(entries[0], apart);
            let run = cpio_files(archive);
            let own = file_steps(run.files, component, windows, done);
            let next = done_after_files(run.files, component, windows, done);
            lemma_file_steps(run.files, component, windows, done);
            assert(is_directory_of(component, entries, apart));
            let tail = match run.error {
                Some(e) => seq![StepView::Failed(PkgErrorView::Archive(e))],
                None => entry_steps(data, header, rest, apart, windows, next),
            };
            assert(steps == own + tail);
            if run.error is None {
                lemma_entry_steps(data, header, rest, apart, windows, next);
            }
            lemma_concat(own, tail, done);
            assert forall|i: int| 0 <= i < steps.len() implies writes_inside(
                #[trigger] steps[i],
                entries,
                apart,
                windows,
            ) && (i < steps.len() - 1 ==> !ends_run(steps[i])) by {
                if i < own.len() {
                    assert(steps[i] == own[i]);
                } else {
                    let step = tail[i - own.len()];
                    assert(steps[i] == step);
                    if run.error is None {
                        assert(writes_inside(step, rest, apart, windows));
                        if let StepView::Write { component: c, .. } = step {
                            let j = choose|j: int|
                                0 <= j < rest.len() && c == directory_for(
                                    #[trigger] rest[j],
                                    apart,
                                );
                            assert(entries[j + 1] == rest[j]);
                        }
                    }
                }
            }
            assert(steps.last() == tail.last());
        }
    }
}

/// A run comes to an end: its last step says whether it succeeded, and no earlier one does. It
/// succeeds exactly where the files can be counted beforehand, and fails for the reason that the
/// count fails for.
pub proof fn law_a_run_ends_as_the_count_does(
    data: Seq<u8>,
    header: XarHeader,
    entries: Seq<EntryView>,
    windows: bool,
)
    ensures
        end_once(extraction_steps(data, header, entries, windows)),
        match file_total(data, header, entries) {
            Ok(_) => extraction_steps(data, header, entries, windows).last() is Finished,
            Err(e) => extraction_steps(data, header, entries, windows).last()
                == StepView::Failed(e),
        },
{
    lemma_entry_steps(data, header, entries, entries.len() > 1, windows, 0);
}

/// A run that succeeds handles as many files as were counted: each is written or warned of.
pub proof fn law_every_counted_file_is_handled(
    data: Seq<u8>,
    header: XarHeader,
    entries: Seq<EntryView>,
    windows: bool,
)
    ensures
        file_total(data, header, entries) matches Ok(total) ==> files_handled(
            extraction_steps(data, header, entries, windows),
        ) == total,
{
    lemma_entry_steps(data, header, entries, entries.len() > 1, windows, 0);
}

/// The count of written files starts at one and goes up by one with each file.
pub proof fn law_written_files_are_counted(
    data: Seq<u8>,
    header: XarHeader,
    entries: Seq<EntryView>,
    windows: bool,
)
    ensures
        count_up(extraction_steps(data, header, entries, windows), 0),
{
    lemma_entry_steps(data, header, entries, entries.len() > 1, windows, 0);
}

/// No file leaves the directory that it belongs in: the output directory itself where there is
/// one archive, else a directory named after the component of one of the archives.
pub proof fn law_files_are_written_inside(
    data: Seq<u8>,
    header: XarHeader,
    entries: Seq<EntryView>,
    windows: bool,
    i: int,
)
    requires
        0 <= i < extraction_steps(data, header, entries, windows).len(),
    ensures
        extraction_steps(data, header, entries, windows)[i] matches StepView::Write {
            component,
            path,
            ..
        } ==> {
            &&& stays_inside(path, windows)
            &&& entries.len() <= 1 ==> component is None
            &&& entries.len() > 1 ==> exists|j: int|
                0 <= j < entries.len() && component == Some(
                    component_label((#[trigger] entries[j]).full_path),
                )
        },
{
    lemma_entry_steps(data, header, entries, entries.len() > 1, windows, 0);
    let step = extraction_steps(data, header, entries, windows)[i];
    assert(writes_inside(step, entries, entries.len() > 1, windows));
    if let StepView::Write { component, .. } = step {
        let j = choose|j: int|
            0 <= j < entries.len() && component == directory_for(
                #[trigger] entries[j],
                entries.len() > 1,
            );
        assert(entries.len() > 1 ==> component == Some(component_label(entries[j].full_path)));
    }
}

// ---------------------------------------------------------------------------
// From file to file
// ---------------------------------------------------------------------------

/// An archive in the portable format that is stored as it is comes out again: a package with
/// that one archive is extracted by writing its files in order, without the directories, and
/// finishing.
pub proof fn law_stored_archive_is_extracted(
    data: Seq<u8>,
    header: XarHeader,
    entry: EntryView,
    files: Seq<NewcFile>,
    trailer: Seq<u8>,
    windows: bool,
)
    requires
        entry.kind == EntryKind::Payload,
        entry.encoding == HeapEncoding::Raw,
        blob_end(header, entry) <= data.len(),
        data.subrange(blob_start(header, entry), blob_end(header, entry)) == newc_archive(
            files,
            trailer,
        ),
        forall|i: int| 0 <= i < files.len() ==> (#[trigger] files[i]).well_formed(),
        cpio_entry(trailer) matches Ok(Found::End { .. }),
    ensures
        extraction_steps(data, header, seq![entry], windows) == file_steps(
            regular_files(files),
            None,
            windows,
            0,
        ).push(StepView::Finished),
{
    let archive = newc_archive(files, trailer);
    law_archive_read_back(files, trailer);
    if begins_with(archive, gzip_magic()) {
        assert(archive[0] == archive.subrange(0, 2)[0]);
        assert(archive[0] == gzip_magic()[0]);
        if files.len() == 0 {
            assert(archive[0] == archive.take(6)[0]);
        } else {
            assert(archive[0] == newc_magic()[0]);
        }
    }
    assert(payload(data, header, entry) == Ok::<Seq<u8>, PkgErrorView>(archive));
    let own = file_steps(regular_files(files), None, windows, 0);
    assert(seq![entry].drop_first() =~= Seq::empty());
    reveal_with_fuel(archive_steps, 3);
    reveal_with_fuel(entry_steps, 3);
    reveal_with_fuel(warned_steps, 3);
    assert(own + seq![StepView::Finished] =~= own.push(StepView::Finished));
}

} // verus!
