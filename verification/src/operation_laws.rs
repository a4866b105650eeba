//! What the operations of the library hand back.

use vstd::prelude::*;

use crate::cli::{can_be_mapped, cli_outcome, exit_code, run_cli, Job, RunOutcome};
use crate::cpio::{count_cpio_files, cpio_entry, CpioError, Found};
use crate::cpio_laws::{law_archive_read_back, newc_archive, regular_files, NewcFile};
use crate::detect::{detect_installer_kind, InstallerKind, Unrecognised};
use crate::detect_laws::{has_end_record, is_signed, law_kinds, starts_archive};
use crate::flow::{files_to_report, Packed};
use crate::gui::{repaint_is_due, worker_event, EventView, GuiEvent};
use crate::inno::{classify_exit, file_line_count, known_file_count, InnoExit};
use crate::layout::{ensure_output_path_available, OutputTaken};
use crate::mojo::{archive_entries, list_lines as list_zip, plan_entry, EntryStep, MojoError};
use crate::mojo::MojoErrorView;
use crate::mojo_list_laws::law_every_entry_is_listed;
use crate::output_laws::{
    directory_path, is_path_part, law_default_output_drops_the_extension,
};
use crate::paths::default_output_dir;
use crate::pkg::{decode_payload_bytes, list_lines as list_package, package};
use crate::pkg_error::{PkgError, PkgErrorView};
use crate::pkg_laws::law_listing_has_a_line_for_each_file;
use crate::pkg_read_laws::{files_before, law_all_files_are_counted, law_entries_lie_in_the_heap};
use crate::pkg_read_laws::looks_packed;
use crate::pkg_write_laws::is_readable;
use crate::run_control::{conclude, min_chunk_size, name_is_due, progress_total, RunEnd};
use crate::safe_path::{law_safe_paths_stay_inside, sanitize_cpio_path, stays_inside};
use crate::select::{component_of, select_extractable_entries};
use crate::select_laws::law_all_components_are_extracted_in_order;
use crate::text::texts;
use crate::toc::{entries_of_events, entries_view, events_view, EntryKind, EntryView};
use crate::toc::{HeapEncoding, PayloadEntry};
use crate::toc_laws::Forest;
use crate::toc_read_laws::{element, is_blank, law_table_read_back, Tree};
use crate::xar::{parse_xar_header, XarHeader};
use crate::xar_laws::{header_bytes, law_header_read_back};
use crate::xml::XmlEvent;
use crate::zip_archive::{entry_found, entry_total, open_error, ZipEntryInfo, ZipMeta};

verus! {

/// What is told of the kind of an installer: a signature comes first, then a ZIP archive, by its
/// start or by its end record, and anything else is not recognised.
pub proof fn law_detection(data: &[u8], kind: Result<InstallerKind, Unrecognised>)
    requires
        call_ensures(detect_installer_kind, (data,), kind),
    ensures
        is_signed(data@) ==> kind == Ok::<InstallerKind, Unrecognised>(InstallerKind::Inno),
        !is_signed(data@) && (starts_archive(data@) || has_end_record(data@)) ==> kind == Ok::<
            InstallerKind,
            Unrecognised,
        >(InstallerKind::MojoSetup),
        !is_signed(data@) && !starts_archive(data@) && !has_end_record(data@) ==> kind is Err,
{
    law_kinds(data@);
}

/// Whatever path is handed back for an entry stays below the output directory.
pub proof fn law_sanitized_paths(raw: &str, windows: bool, safe: Option<String>)
    requires
        call_ensures(sanitize_cpio_path, (raw, windows), safe),
    ensures
        safe matches Some(path) ==> stays_inside(path@, windows),
{
    law_safe_paths_stay_inside(raw@, windows);
}

/// The output path is refused exactly where something is there that is not to be replaced, and it is
/// that path which is told.
pub proof fn law_availability(
    path: &[u8],
    present: bool,
    force: bool,
    available: Result<(), OutputTaken>,
)
    requires
        call_ensures(ensure_output_path_available, (path, present, force), available),
    ensures
        available is Err <==> present && !force,
        available matches Err(taken) ==> taken.path@ == path@,
{
}

/// What a run comes to, what is told of it, and how the program ends.
pub proof fn law_ends(
    end: RunEnd,
    user_cancelled: bool,
    outcome: RunEnd,
    done: bool,
    told: RunOutcome,
    last: Option<RunOutcome>,
    code: i32,
)
    requires
        call_ensures(conclude, (end, user_cancelled), outcome),
        call_ensures(cli_outcome, (done,), told),
        call_ensures(exit_code, (last,), code),
    ensures
        outcome == RunEnd::Finished <==> end == RunEnd::Finished,
        outcome == RunEnd::Failed <==> end == RunEnd::Failed && !user_cancelled,
        told == if done {
            RunOutcome::CliSuccess
        } else {
            RunOutcome::CliCancelled
        },
        code == 0 <==> last == Some(RunOutcome::CliSuccess) || last == Some(RunOutcome::GuiExited),
        code == 130 <==> last == Some(RunOutcome::CliCancelled),
{
}

/// What is made of the numbers that pace a run.
pub proof fn law_pace(
    entry_count: usize,
    thread_count: usize,
    size: usize,
    now: u64,
    before: u64,
    due: bool,
    since_last: u128,
    repaint: bool,
    files_total: u64,
    known: u64,
    total: u64,
)
    requires
        thread_count > 0,
        call_ensures(min_chunk_size, (entry_count, thread_count), size),
        call_ensures(name_is_due, (now, before), due),
        call_ensures(repaint_is_due, (since_last,), repaint),
        call_ensures(progress_total, (files_total, known), total),
    ensures
        size >= 1,
        due <==> now - before >= 100_000_000,
        repaint <==> since_last >= 32,
        total == if files_total == 0 {
            known
        } else {
            files_total
        },
{
    if entry_count >= thread_count {
        let share = entry_count as int / thread_count as int;
        assert(share >= 1) by (nonlinear_arith)
            requires
                share == entry_count as int / thread_count as int,
                entry_count >= thread_count,
                thread_count > 0,
        ;
    }
}

/// What is told of the exit of the program that unpacks.
pub proof fn law_exit(
    success: bool,
    code: Option<i32>,
    running: bool,
    windows: bool,
    exit: InnoExit,
)
    requires
        call_ensures(classify_exit, (success, code, running, windows), exit),
    ensures
        exit == InnoExit::Finished <==> success,
        exit == InnoExit::Cancelled <==> !success && (!running || windows && code == Some(
            -1073741510i32,
        )),
{
}

/// What is done with an installer, what can be mapped, and what is reported.
pub proof fn law_jobs(
    kind: InstallerKind,
    list: bool,
    job: Job,
    len: u64,
    narrow: bool,
    can: bool,
    packed: Packed,
    counted: u64,
    written: u64,
    files: u64,
)
    requires
        call_ensures(run_cli, (kind, list), job),
        call_ensures(can_be_mapped, (len, narrow), can),
        call_ensures(files_to_report, (packed, counted, written), files),
    ensures
        list <==> job == Job::ListInno || job == Job::ListMojo || job == Job::ListPkg,
        kind == InstallerKind::Inno <==> job == Job::ListInno || job == Job::ExtractInno,
        kind == InstallerKind::Pkg <==> job == Job::ListPkg || job == Job::ExtractPkg,
        can <==> !narrow || len <= 0x8000_0000,
        packed == Packed::Pkg ==> files == written,
        packed == Packed::Zip ==> files == counted,
{
}

/// A worker that got everything done has told so itself; what else became of it is told here.
pub proof fn law_worker_events(result: Result<bool, String>, event: Option<GuiEvent>)
    requires
        call_ensures(worker_event, (result,), event),
    ensures
        event is None <==> result matches Ok(true),
        result matches Ok(false) ==> event.unwrap()@ == EventView::Cancelled,
        result matches Err(message) ==> event.unwrap()@ == EventView::Failed(message@),
{
}

// ---------------------------------------------------------------------------
// ZIP archives
// ---------------------------------------------------------------------------

/// The listing of an archive has a line for each of its entries: as many lines as entries and four
/// more, and the line of entry number `i` ends in its name. It fails where the archive cannot be
/// opened.
pub proof fn law_zip_listing(
    data: &[u8],
    lines: Result<Vec<String>, MojoError>,
    i: int,
    meta: ZipMeta,
)
    requires
        call_ensures(list_zip, (data,), lines),
        0 <= i < entry_total(data@),
        entry_found(data@, i as nat) == Ok::<ZipMeta, Seq<char>>(meta),
    ensures
        lines matches Ok(found) ==> {
            &&& found@.len() == entry_total(data@) + 4
            &&& found@[i + 2]@.len() >= meta.name.len()
            &&& found@[i + 2]@.skip(found@[i + 2]@.len() - meta.name.len()) == meta.name
        },
        open_error(data@) matches Some(cause) ==> (lines matches Err(e) && e@ == MojoErrorView::Open(
            cause,
        )),
{
    if let Ok(found) = lines {
        let entries = archive_entries(data@)->Ok_0;
        law_every_entry_is_listed(data@, entries);
        assert(texts(found@)[i + 2] == found@[i + 2]@);
        assert(entry_found(data@, i as nat) == Ok::<ZipMeta, Seq<char>>(entries[i]));
        assert(entries[i] == meta);
    }
}

/// What is planned for an entry keeps its path and the permissions that the archive gives it.
pub proof fn law_planned_entries(info: ZipEntryInfo, windows: bool, step: EntryStep)
    requires
        call_ensures(plan_entry, (info, windows), step),
    ensures
        match info.enclosed {
            None => step matches EntryStep::Skip { name } && name@ == info.name@,
            Some(own) => if info.is_dir {
                step matches EntryStep::MakeDirectory { path } && path@ == own@
            } else {
                &&& step matches EntryStep::WriteFile { path, unix_mode, shown }
                &&& path@ == own@
                &&& unix_mode == info.unix_mode
            },
        },
{
}

// ---------------------------------------------------------------------------
// Packages
// ---------------------------------------------------------------------------

/// The archives that are found in a table of contents are those that it lists, with the offsets and
/// lengths that it gives them.
pub proof fn law_found_archives(
    events: Vec<XmlEvent>,
    entries: Vec<PayloadEntry>,
    tree: Tree,
    a: Seq<char>,
    b: Seq<char>,
)
    requires
        call_ensures(entries_of_events, (events,), entries),
        is_blank(a),
        is_blank(b),
        events_view(events@) == element(
            "xar"@,
            element("toc"@, tree.elements(a, b), Forest::Nil),
            Forest::Nil,
        ).events(),
    ensures
        entries_view(entries@) == tree.archives(Seq::empty()),
{
    law_table_read_back(tree, a, b);
}

/// What is read of the header of a package is what was written there.
pub proof fn law_headers(
    data: &[u8],
    header: Result<XarHeader, PkgError>,
    header_size: u16,
    toc_length: u64,
    version: Seq<u8>,
    rest: Seq<u8>,
)
    requires
        call_ensures(parse_xar_header, (data,), header),
        data@ == header_bytes(header_size, toc_length, version, rest),
        version.len() == 2,
        rest.len() >= 12,
        header_size >= 28,
        data@.len() >= header_size + toc_length,
    ensures
        header matches Ok(h) && h.header_size == header_size && h.toc_length_compressed
            == toc_length,
{
    law_header_read_back(header_size, toc_length, version, rest);
}

/// The listing of a package has a line for each of its archives and one for each of their files.
pub proof fn law_package_listing(
    data: &[u8],
    lines: Result<Vec<String>, PkgError>,
    header: XarHeader,
    entries: Seq<EntryView>,
)
    requires
        call_ensures(list_package, (data,), lines),
        package(data@) == Ok::<(XarHeader, Seq<EntryView>), PkgErrorView>((header, entries)),
        forall|j: int|
            0 <= j < entries.len() ==> is_readable(data@, header, #[trigger] entries[j]),
    ensures
        lines matches Ok(found) && found@.len() == entries.len() + files_before(
            data@,
            header,
            entries,
            entries.len() as int,
        ),
{
    law_all_files_are_counted(data@, header, entries);
    law_listing_has_a_line_for_each_file(data@, header, entries);
    if let Ok(found) = lines {
        assert(texts(found@).len() == found@.len());
    }
}

/// The archive that is handed back of an entry that is stored as it is, and is no gzip stream, is
/// what lies in the heap at its offset and over its length.
pub proof fn law_stored_archives(
    data: &[u8],
    header: &XarHeader,
    entry: &PayloadEntry,
    archive: Result<Vec<u8>, PkgError>,
    head: Seq<u8>,
    table: Seq<u8>,
    before: Seq<u8>,
    body: Seq<u8>,
    after: Seq<u8>,
)
    requires
        call_ensures(decode_payload_bytes, (data, header, entry), archive),
        data@ == head + table + before + body + after,
        head.len() == header.header_size,
        table.len() == header.toc_length_compressed,
        before.len() == entry.heap_offset,
        body.len() == entry.heap_length,
        entry.encoding == HeapEncoding::Raw,
        !looks_packed(body),
    ensures
        archive matches Ok(bytes) && bytes@ == body,
{
    law_entries_lie_in_the_heap(head, table, before, body, after, *header, entry@);
}

/// Archives of one kind that belong to different components are all kept, in order.
pub proof fn law_kept_archives(
    entries: Vec<PayloadEntry>,
    kept: Vec<PayloadEntry>,
    kind: EntryKind,
)
    requires
        call_ensures(select_extractable_entries, (entries,), kept),
        forall|i: int| 0 <= i < entries@.len() ==> (#[trigger] entries@[i]).kind == kind,
        forall|i: int, j: int|
            0 <= i < j < entries@.len() ==> component_of((#[trigger] entries@[i]).full_path@)
                != component_of((#[trigger] entries@[j]).full_path@),
    ensures
        kept@.len() == entries@.len(),
        forall|i: int| 0 <= i < kept@.len() ==> (#[trigger] kept@[i])@ == entries@[i]@,
{
    let views = entries_view(entries@);
    assert forall|i: int| 0 <= i < views.len() implies (#[trigger] views[i]).kind == kind by {
        assert(views[i] == entries@[i]@);
    }
    assert forall|i: int, j: int| 0 <= i < j < views.len() implies component_of(
        (#[trigger] views[i]).full_path,
    ) != component_of((#[trigger] views[j]).full_path) by {
        assert(views[i] == entries@[i]@);
        assert(views[j] == entries@[j]@);
    }
    law_all_components_are_extracted_in_order(views, kind);
    assert(entries_view(kept@).len() == kept@.len());
    assert forall|i: int| 0 <= i < kept@.len() implies (#[trigger] kept@[i])@ == entries@[i]@ by {
        assert(entries_view(kept@)[i] == kept@[i]@);
        assert(views[i] == entries@[i]@);
    }
}

/// The number of files that is counted in an archive that was written as one is that of its entries
/// that are no directories.
pub proof fn law_counted_files(
    bytes: &[u8],
    count: Result<u64, CpioError>,
    files: Seq<NewcFile>,
    trailer: Seq<u8>,
)
    requires
        call_ensures(count_cpio_files, (bytes,), count),
        bytes@ == newc_archive(files, trailer),
        forall|i: int| 0 <= i < files.len() ==> (#[trigger] files[i]).well_formed(),
        cpio_entry(trailer) matches Ok(Found::End { .. }),
    ensures
        count matches Ok(n) && n == regular_files(files).len(),
{
    law_archive_read_back(files, trailer);
}

// ---------------------------------------------------------------------------
// Output and lines
// ---------------------------------------------------------------------------

/// `dir/base.ext` is extracted to `dir/base` when nothing else is asked for.
pub proof fn law_default_directory(
    input: &[u8],
    dir: Vec<u8>,
    up: Option<Seq<u8>>,
    last: Seq<u8>,
    base: Seq<u8>,
    extension: Seq<u8>,
)
    requires
        call_ensures(default_output_dir, (input, false), dir),
        input@ == directory_path(up, 0x2f, last).push(0x2f) + (base.push(0x2e) + extension),
        is_path_part(last, false),
        base.len() > 0,
        !extension.contains(0x2e),
        is_path_part(base.push(0x2e) + extension, false),
        base.push(0x2e) + extension != seq![0x2eu8, 0x2e],
    ensures
        dir@ == directory_path(up, 0x2f, last).push(0x2f) + base,
{
    law_default_output_drops_the_extension(up, 0x2f, last, 0x2f, base, extension, false);
}

/// A listing tells of no files exactly where no line of it starts with a dash.
pub proof fn law_known_files(lines: Vec<String>, count: Option<u64>)
    requires
        call_ensures(known_file_count, (&lines,), count),
    ensures
        count is None <==> file_line_count(texts(lines@)) == 0,
        count matches Some(n) ==> n == file_line_count(texts(lines@)),
{
}

} // verus!
