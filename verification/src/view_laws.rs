//! What contracts say of values is what the values hold.

use vstd::prelude::*;

use crate::cpio::{entry_read, CpioEntry, CpioError, CpioErrorView, Found, Parsed};
use crate::gui::{gui_events_view, log_view, App, GuiEvent, LogLevel};
use crate::inflate::unpacked_view;
use crate::mojo::{infos_view, MojoError};
use crate::pkg::{bytes_agree, found_view};
use crate::pkg_error::{PkgError, PkgErrorView};
use crate::text::texts;
use crate::toc::{entries_view, PayloadEntry};
use crate::unpack::part_view;
use crate::zip_archive::ZipEntryInfo;

verus! {

/// Lists of values are told one by one, and none is left out.
pub proof fn law_lists_are_told_one_by_one(
    lines: Seq<String>,
    entries: Seq<PayloadEntry>,
    infos: Seq<ZipEntryInfo>,
    events: Seq<GuiEvent>,
    log: Seq<(LogLevel, String)>,
    i: int,
)
    ensures
        texts(lines).len() == lines.len(),
        0 <= i < lines.len() ==> texts(lines)[i] == lines[i]@,
        entries_view(entries).len() == entries.len(),
        0 <= i < entries.len() ==> entries_view(entries)[i] == entries[i]@,
        infos_view(infos).len() == infos.len(),
        0 <= i < infos.len() ==> infos_view(infos)[i] == infos[i]@,
        gui_events_view(events).len() == events.len(),
        0 <= i < events.len() ==> gui_events_view(events)[i] == events[i]@,
        log_view(log).len() == log.len(),
        0 <= i < log.len() ==> log_view(log)[i].0 == log[i].0 && log_view(log)[i].1 == log[i].1@,
{
}

/// What is said of an entry is what stands in its fields.
pub proof fn law_entries_are_told_field_by_field(
    payload: PayloadEntry,
    file: CpioEntry,
    info: ZipEntryInfo,
)
    ensures
        payload@.kind == payload.kind,
        payload@.full_path == payload.full_path@,
        payload@.heap_offset == payload.heap_offset,
        payload@.heap_length == payload.heap_length,
        payload@.encoding == payload.encoding,
        file@.name == file.name@,
        file@.mode == file.mode,
        file@.file_size == file.file_size,
        info@.name == info.name@,
        info@.size == info.size,
        info@.modified == info.modified,
        info@.unix_mode == info.unix_mode,
{
}

/// An entry that was read is the entry that the bytes hold, with all of its body, and what is left
/// to read is what follows it; the end is the end; and an error is the error.
pub proof fn law_what_is_read_is_what_is_there(
    there: Parsed,
    end: Seq<u8>,
    error: CpioErrorView,
    result: Result<Option<(CpioEntry, Vec<u8>)>, CpioError>,
    rest: Seq<u8>,
)
    ensures
        entry_read(Ok::<Found, CpioErrorView>(Found::Entry(there)), result, rest) ==> {
            &&& result matches Ok(Some((entry, body)))
            &&& entry@ == there.entry
            &&& body@ == there.body
            &&& rest == there.rest
        },
        entry_read(Ok::<Found, CpioErrorView>(Found::End { rest: end }), result, rest) ==> {
            &&& result matches Ok(None)
            &&& rest == end
        },
        entry_read(Err::<Found, CpioErrorView>(error), result, rest) ==> {
            &&& result matches Err(e)
            &&& e@ == error
        },
{
}

/// Bytes that are handed back are all that was meant, and an error is the error that was meant.
pub proof fn law_bytes_are_handed_back_whole(
    result: Result<Vec<u8>, PkgError>,
    bytes: Seq<u8>,
    error: PkgErrorView,
    unpacked: Result<Vec<u8>, String>,
    found: Result<Vec<PayloadEntry>, String>,
    part: Result<Option<Vec<u8>>, MojoError>,
)
    ensures
        bytes_agree(result, Ok::<Seq<u8>, PkgErrorView>(bytes)) ==> (result matches Ok(b) && b@
            == bytes),
        bytes_agree(result, Err::<Seq<u8>, PkgErrorView>(error)) ==> (result matches Err(e) && e@
            == error),
        unpacked matches Ok(b) ==> unpacked_view(unpacked) == Ok::<Seq<u8>, Seq<char>>(b@),
        unpacked matches Err(e) ==> unpacked_view(unpacked) == Err::<Seq<u8>, Seq<char>>(e@),
        found matches Ok(list) ==> (found_view(found) matches Ok(views) && views.len()
            == list@.len()),
        found matches Err(e) ==> (found_view(found) matches Err(cause) && cause == e@),
        part matches Ok(Some(b)) ==> (part_view(part) matches Ok(Some(held)) && held == b@),
        part matches Ok(None) ==> part_view(part) matches Ok(None),
        part matches Err(e) ==> (part_view(part) matches Err(told) && told == e@),
{
}

/// What is said of the window is what stands in its fields.
pub proof fn law_the_window_is_told_field_by_field(app: App)
    ensures
        app@.state == app.state,
        app@.installer_path == app.installer_path_str@,
        app@.output_dir == app.output_dir_str@,
        app@.force_overwrite == app.force_overwrite,
        app@.detected_kind == app.detected_kind,
        app@.current_file == app.current_file@,
        app@.files_done == app.files_done,
        app@.files_total == app.files_total,
        app@.summary == app.summary_text@,
        app@.error == app.error_text@,
        app@.log.len() == app.log@.len(),
        app@.running_flag == app.running_flag,
        app@.cancelled_flag == app.cancelled_flag,
        app.last_output_dir matches Some(dir) ==> app@.last_output_dir == Some(dir@),
        app.last_output_dir is None ==> app@.last_output_dir is None,
{
}

} // verus!
