//! macOS packages: a XAR archive whose `Payload` and `Scripts` entries are cpio archives.

use vstd::prelude::*;
use vstd::slice::slice_subrange;

use crate::cpio::{count_cpio_files, cpio_files, next_cpio_file, CpioEntryView};
use crate::cpio::lemma_file_takes_bytes;
use crate::inflate::{gunzip, gunzipped, inflate, inflated, unpacked_view};
use crate::numbers::{counted, decimal, lemma_counted, number_padded_start, padded_start};
use crate::pkg_error::{PkgError, PkgErrorView};
use crate::reader::ByteReader;
use crate::select::{select_extractable_entries, selected};
use crate::text::{begins_with, bytes_at, copy_bytes, texts};
use crate::toc::{entries_in, entries_view, find_payload_entries, kind_name};
use crate::toc::{EntryView, HeapEncoding, PayloadEntry};
use crate::xar::{parse_xar_header, read_toc_xml, toc_xml, xar_header, XarHeader};
use crate::xml::document_events;

verus! {

// ---------------------------------------------------------------------------
// The bytes of an entry
// ---------------------------------------------------------------------------

/// Where the bytes of `entry` start in the file.
pub open spec fn blob_start(header: XarHeader, entry: EntryView) -> int {
    header.heap_start() + entry.heap_offset
}

/// Where the bytes of `entry` end in the file.
pub open spec fn blob_end(header: XarHeader, entry: EntryView) -> int {
    blob_start(header, entry) + entry.heap_length
}

/// The bytes that `entry` has in the file, as they stand there.
pub open spec fn raw_blob(data: Seq<u8>, header: XarHeader, entry: EntryView) -> Result<
    Seq<u8>,
    PkgErrorView,
> {
    let start = blob_start(header, entry);
    let end = blob_end(header, entry);
    if end > data.len() {
        Err(PkgErrorView::PastEnd { path: entry.full_path, start, end, len: data.len() as int })
    } else {
        Ok(data.subrange(start, end))
    }
}

/// What comes of an entry whose bytes unpack to `unpacked`, as their encoding asks.
pub open spec fn blob_from(entry: EntryView, unpacked: Result<Seq<u8>, Seq<char>>) -> Result<
    Seq<u8>,
    PkgErrorView,
> {
    match unpacked {
        Ok(bytes) => Ok(bytes),
        Err(cause) => if entry.encoding == HeapEncoding::Gzip {
            Err(PkgErrorView::BlobGunzip { path: entry.full_path, cause })
        } else {
            Err(PkgErrorView::BlobInflate { path: entry.full_path, cause })
        },
    }
}

/// The bytes `raw` of `entry`, with their encoding undone.
pub open spec fn decoded_blob(entry: EntryView, raw: Seq<u8>) -> Result<Seq<u8>, PkgErrorView> {
    match entry.encoding {
        HeapEncoding::Raw => Ok(raw),
        HeapEncoding::Gzip => blob_from(entry, gunzipped(raw)),
        HeapEncoding::Zlib => blob_from(entry, inflated(raw)),
        HeapEncoding::Bzip2 | HeapEncoding::Other => Err(
            PkgErrorView::UnsupportedEncoding { path: entry.full_path },
        ),
    }
}

/// The two bytes that a gzip stream begins with.
pub open spec fn gzip_magic() -> Seq<u8> {
    seq![0x1fu8, 0x8b]
}

/// What comes of an entry whose archive is a gzip stream that unpacks to `unpacked`.
pub open spec fn archive_from(entry: EntryView, unpacked: Result<Seq<u8>, Seq<char>>) -> Result<
    Seq<u8>,
    PkgErrorView,
> {
    match unpacked {
        Ok(bytes) => Ok(bytes),
        Err(cause) => Err(PkgErrorView::ArchiveGunzip { path: entry.full_path, cause }),
    }
}

/// The cpio archive in `blob`, which may be packed with gzip.
pub open spec fn archive_in(entry: EntryView, blob: Seq<u8>) -> Result<Seq<u8>, PkgErrorView> {
    if begins_with(blob, gzip_magic()) {
        archive_from(entry, gunzipped(blob))
    } else {
        Ok(blob)
    }
}

/// The cpio archive that `entry` holds.
pub open spec fn payload(data: Seq<u8>, header: XarHeader, entry: EntryView) -> Result<
    Seq<u8>,
    PkgErrorView,
> {
    match raw_blob(data, header, entry) {
        Err(e) => Err(e),
        Ok(raw) => match decoded_blob(entry, raw) {
            Err(e) => Err(e),
            Ok(blob) => archive_in(entry, blob),
        },
    }
}

/// `result` comes to `meaning`.
pub open spec fn bytes_agree(
    result: Result<Vec<u8>, PkgError>,
    meaning: Result<Seq<u8>, PkgErrorView>,
) -> bool {
    match result {
        Ok(bytes) => meaning == Ok::<Seq<u8>, PkgErrorView>(bytes@),
        Err(e) => meaning == Err::<Seq<u8>, PkgErrorView>(e@),
    }
}

/// The bytes that `entry` has in the file.
pub fn heap_blob<'a>(data: &'a [u8], header: &XarHeader, entry: &PayloadEntry) -> (raw: Result<
    &'a [u8],
    PkgError,
>)
    ensures
        match raw {
            Ok(bytes) => raw_blob(data@, *header, entry@) == Ok::<Seq<u8>, PkgErrorView>(bytes@),
            Err(e) => raw_blob(data@, *header, entry@) == Err::<Seq<u8>, PkgErrorView>(e@),
        },
{
    let start: u128 = header.header_size as u128 + header.toc_length_compressed as u128
        + entry.heap_offset as u128;
    let end: u128 = start + entry.heap_length as u128;
    if end > data.len() as u128 {
        return Err(
            PkgError::PastEnd {
                path: entry.full_path.clone(),
                start,
                end,
                len: data.len() as u64,
            },
        );
    }
    Ok(slice_subrange(data, start as usize, end as usize))
}

/// What comes of an entry whose bytes unpack to `unpacked`.
pub fn unpacked_blob(entry: &PayloadEntry, unpacked: Result<Vec<u8>, String>) -> (blob: Result<
    Vec<u8>,
    PkgError,
>)
    ensures
        bytes_agree(blob, blob_from(entry@, unpacked_view(unpacked))),
{
    match unpacked {
        Ok(bytes) => Ok(bytes),
        Err(cause) => {
            let path = entry.full_path.clone();
            if entry.encoding == HeapEncoding::Gzip {
                Err(PkgError::BlobGunzip { path, cause })
            } else {
                Err(PkgError::BlobInflate { path, cause })
            }
        },
    }
}

/// Undoes the encoding that the table of contents gives the bytes `raw` of `entry`.
pub fn decode_blob(entry: &PayloadEntry, raw: &[u8]) -> (blob: Result<Vec<u8>, PkgError>)
    ensures
        bytes_agree(blob, decoded_blob(entry@, raw@)),
{
    match entry.encoding {
        HeapEncoding::Raw => Ok(copy_bytes(raw)),
        HeapEncoding::Gzip => unpacked_blob(entry, gunzip(raw)),
        HeapEncoding::Zlib => unpacked_blob(entry, inflate(raw)),
        HeapEncoding::Bzip2 | HeapEncoding::Other => Err(
            PkgError::UnsupportedEncoding { path: entry.full_path.clone() },
        ),
    }
}

/// Whether `bytes` begin as a gzip stream does.
pub fn is_gzip(bytes: &[u8]) -> (gzip: bool)
    ensures
        gzip == begins_with(bytes@, gzip_magic()),
{
    let magic: [u8; 2] = [0x1f, 0x8b];
    assert(magic@ =~= gzip_magic());
    bytes_at(bytes, magic.as_slice(), 0)
}

/// What comes of an entry whose archive is a gzip stream that unpacks to `unpacked`.
pub fn unpacked_archive(entry: &PayloadEntry, unpacked: Result<Vec<u8>, String>) -> (archive:
    Result<Vec<u8>, PkgError>)
    ensures
        bytes_agree(archive, archive_from(entry@, unpacked_view(unpacked))),
{
    match unpacked {
        Ok(bytes) => Ok(bytes),
        Err(cause) => Err(PkgError::ArchiveGunzip { path: entry.full_path.clone(), cause }),
    }
}

/// The cpio archive that `entry` holds. The encoding in the table of contents is that of the
/// bytes in the file; an archive in them that begins as a gzip stream does is unpacked as well.
pub fn decode_payload_bytes(data: &[u8], header: &XarHeader, entry: &PayloadEntry) -> (archive:
    Result<Vec<u8>, PkgError>)
    ensures
        bytes_agree(archive, payload(data@, *header, entry@)),
{
    let raw = match heap_blob(data, header, entry) {
        Ok(raw) => raw,
        Err(e) => {
            return Err(e);
        },
    };
    let blob = match decode_blob(entry, raw) {
        Ok(blob) => blob,
        Err(e) => {
            return Err(e);
        },
    };
    if is_gzip(blob.as_slice()) {
        unpacked_archive(entry, gunzip(blob.as_slice()))
    } else {
        Ok(blob)
    }
}

// ---------------------------------------------------------------------------
// The entries of a package
// ---------------------------------------------------------------------------

/// The archives to extract of those that a table of contents names.
pub open spec fn to_extract(found: Result<Seq<EntryView>, Seq<char>>) -> Result<
    Seq<EntryView>,
    PkgErrorView,
> {
    match found {
        Err(cause) => Err(PkgErrorView::TocMalformed(cause)),
        Ok(entries) => if selected(entries).len() == 0 {
            Err(PkgErrorView::NothingToExtract)
        } else {
            Ok(selected(entries))
        },
    }
}

/// The archives that the table of contents `xml` names.
pub open spec fn found_in(xml: Seq<char>) -> Result<Seq<EntryView>, Seq<char>> {
    match document_events(xml).error {
        Some(cause) => Err(cause),
        None => Ok(entries_in(document_events(xml).events)),
    }
}

/// The header of a package and the archives to extract from it.
pub open spec fn package(data: Seq<u8>) -> Result<(XarHeader, Seq<EntryView>), PkgErrorView> {
    match xar_header(data) {
        Err(e) => Err(e),
        Ok(header) => match toc_xml(data, header) {
            Err(e) => Err(e),
            Ok(xml) => match to_extract(found_in(xml)) {
                Err(e) => Err(e),
                Ok(entries) => Ok((header, entries)),
            },
        },
    }
}

/// What a search of a table of contents comes to.
pub open spec fn found_view(found: Result<Vec<PayloadEntry>, String>) -> Result<
    Seq<EntryView>,
    Seq<char>,
> {
    match found {
        Ok(entries) => Ok(entries_view(entries@)),
        Err(cause) => Err(cause@),
    }
}

/// The archives to extract of those found.
pub fn choose_entries(found: Result<Vec<PayloadEntry>, String>) -> (entries: Result<
    Vec<PayloadEntry>,
    PkgError,
>)
    ensures
        match entries {
            Ok(kept) => to_extract(found_view(found)) == Ok::<Seq<EntryView>, PkgErrorView>(
                entries_view(kept@),
            ),
            Err(e) => to_extract(found_view(found)) == Err::<Seq<EntryView>, PkgErrorView>(e@),
        },
{
    match found {
        Err(cause) => Err(PkgError::TocMalformed(cause)),
        Ok(entries) => {
            let kept = select_extractable_entries(entries);
            assert(entries_view(kept@).len() == kept@.len());
            if kept.len() == 0 {
                Err(PkgError::NothingToExtract)
            } else {
                Ok(kept)
            }
        },
    }
}

/// The header of a package and the archives to extract from it.
pub fn open_package(data: &[u8]) -> (opened: Result<(XarHeader, Vec<PayloadEntry>), PkgError>)
    ensures
        match opened {
            Ok((header, entries)) => package(data@) == Ok::<
                (XarHeader, Seq<EntryView>),
                PkgErrorView,
            >((header, entries_view(entries@))),
            Err(e) => package(data@) == Err::<(XarHeader, Seq<EntryView>), PkgErrorView>(e@),
        },
{
    let header = match parse_xar_header(data) {
        Ok(header) => header,
        Err(e) => {
            return Err(e);
        },
    };
    let xml = match read_toc_xml(data, &header) {
        Ok(xml) => xml,
        Err(e) => {
            return Err(e);
        },
    };
    match choose_entries(find_payload_entries(xml.as_str())) {
        Ok(entries) => Ok((header, entries)),
        Err(e) => Err(e),
    }
}

// ---------------------------------------------------------------------------
// Listing
// ---------------------------------------------------------------------------

/// The line above the files of an archive.
pub open spec fn heading(entry: EntryView) -> Seq<char> {
    "== "@ + entry.full_path + " ("@ + kind_name(entry.kind) + ") =="@
}

/// The line of a file.
pub open spec fn file_line(file: CpioEntryView) -> Seq<char> {
    padded_start(decimal(file.file_size as nat), ' ', 10) + "  "@ + file.name
}

/// The lines of the files in an archive, as far as it can be read.
pub open spec fn file_lines(archive: Seq<u8>) -> Seq<Seq<char>> {
    cpio_files(archive).files.map_values(|f: (CpioEntryView, Seq<u8>)| file_line(f.0))
}

/// The lines of `entry`, whose archive is `archive`.
pub open spec fn archive_listing(entry: EntryView, archive: Seq<u8>) -> Result<
    Seq<Seq<char>>,
    PkgErrorView,
> {
    match cpio_files(archive).error {
        Some(e) => Err(PkgErrorView::Archive(e)),
        None => Ok(seq![heading(entry)] + file_lines(archive)),
    }
}

/// The lines of `entries`, in order; the first that cannot be read stops the listing.
pub open spec fn entries_listing(data: Seq<u8>, header: XarHeader, entries: Seq<EntryView>) -> Result<
    Seq<Seq<char>>,
    PkgErrorView,
>
    decreases entries.len(),
{
    if entries.len() == 0 {
        Ok(Seq::empty())
    } else {
        match payload(data, header, entries[0]) {
            Err(e) => Err(e),
            Ok(archive) => match archive_listing(entries[0], archive) {
                Err(e) => Err(e),
                Ok(lines) => match entries_listing(data, header, entries.drop_first()) {
                    Err(e) => Err(e),
                    Ok(more) => Ok(lines + more),
                },
            },
        }
    }
}

/// The listing of a package.
pub open spec fn listing(data: Seq<u8>) -> Result<Seq<Seq<char>>, PkgErrorView> {
    match package(data) {
        Err(e) => Err(e),
        Ok((header, entries)) => entries_listing(data, header, entries),
    }
}

/// The line above the files of an archive.
pub fn heading_line(entry: &PayloadEntry) -> (line: String)
    ensures
        line@ == heading(entry@),
{
    let mut line = "== ".to_owned();
    line.append(entry.full_path.as_str());
    line.append(" (");
    line.append(entry.kind.name());
    line.append(") ==");
    line
}

/// The line of a file of `size` bytes called `name`.
fn size_and_name(size: u64, name: &str) -> (line: String)
    ensures
        line@ == padded_start(decimal(size as nat), ' ', 10) + "  "@ + name@,
{
    let mut line = number_padded_start(size, ' ', 10);
    line.append("  ");
    line.append(name);
    line
}

/// Adds the lines of `entry`, whose archive is `archive`, to `lines`.
pub fn list_archive(entry: &PayloadEntry, archive: &[u8], lines: &mut Vec<String>) -> (listed:
    Result<(), PkgError>)
    ensures
        match listed {
            Ok(()) => archive_listing(entry@, archive@) is Ok && texts(final(lines)@) == texts(
                old(lines)@,
            ) + archive_listing(entry@, archive@)->Ok_0,
            Err(e) => archive_listing(entry@, archive@) == Err::<Seq<Seq<char>>, PkgErrorView>(
                e@,
            ) && texts(final(lines)@) == texts(old(lines)@) + seq![heading(entry@)] + file_lines(
                archive@,
            ),
        },
{
    let ghost start = texts(lines@);
    lines.push(heading_line(entry));
    assert(texts(lines@) =~= start.push(heading(entry@)));
    let mut reader = ByteReader::new(archive);
    loop
        invariant
            cpio_files(archive@).error == cpio_files(reader@).error,
            texts(lines@) + file_lines(reader@) == start + seq![heading(entry@)] + file_lines(
                archive@,
            ),
            start == texts(old(lines)@),
        decreases reader@.len(),
    {
        proof {
            lemma_file_takes_bytes(reader@);
        }
        let ghost from = reader@;
        let ghost before = texts(lines@);
        match next_cpio_file(&mut reader) {
            Ok(Some((file, _))) => {
                lines.push(size_and_name(file.file_size, file.name.as_str()));
                proof {
                    assert(texts(lines@) =~= before.push(file_line(file@)));
                    assert(file_lines(from) =~= seq![file_line(file@)] + file_lines(reader@));
                    assert(texts(lines@) + file_lines(reader@) =~= before + file_lines(from));
                }
            },
            Ok(None) => {
                assert(file_lines(from) =~= Seq::empty());
                assert(texts(lines@) =~= before + file_lines(from));
                assert(texts(lines@) =~= start + (seq![heading(entry@)] + file_lines(archive@)));
                return Ok(());
            },
            Err(e) => {
                assert(file_lines(from) =~= Seq::empty());
                assert(texts(lines@) =~= before + file_lines(from));
                return Err(PkgError::Archive(e));
            },
        }
    }
}

/// Lists the files in the archives `entries`.
fn list_entries(data: &[u8], header: &XarHeader, entries: &Vec<PayloadEntry>) -> (lines: Result<
    Vec<String>,
    PkgError,
>)
    ensures
        match lines {
            Ok(lines) => entries_listing(data@, *header, entries_view(entries@)) == Ok::<
                Seq<Seq<char>>,
                PkgErrorView,
            >(texts(lines@)),
            Err(e) => entries_listing(data@, *header, entries_view(entries@)) == Err::<
                Seq<Seq<char>>,
                PkgErrorView,
            >(e@),
        },
{
    let ghost all = entries_view(entries@);
    let mut lines: Vec<String> = Vec::new();
    assert(all.skip(0) =~= all);
    for i in 0..entries.len()
        invariant
            all == entries_view(entries@),
            match entries_listing(data@, *header, all.skip(i as int)) {
                Ok(more) => entries_listing(data@, *header, all) == Ok::<
                    Seq<Seq<char>>,
                    PkgErrorView,
                >(texts(lines@) + more),
                Err(e) => entries_listing(data@, *header, all) == Err::<
                    Seq<Seq<char>>,
                    PkgErrorView,
                >(e),
            },
    {
        assert(all.skip(i as int).drop_first() =~= all.skip(i + 1));
        assert(all.skip(i as int)[0] == entries@[i as int]@);
        let ghost before = texts(lines@);
        let archive = match decode_payload_bytes(data, header, &entries[i]) {
            Ok(archive) => archive,
            Err(e) => {
                return Err(e);
            },
        };
        match list_archive(&entries[i], archive.as_slice(), &mut lines) {
            Ok(()) => {
                proof {
                    let own = archive_listing(entries@[i as int]@, archive@)->Ok_0;
                    if let Ok(more) = entries_listing(data@, *header, all.skip(i + 1)) {
                        assert(before + (own + more) =~= texts(lines@) + more);
                    }
                }
            },
            Err(e) => {
                return Err(e);
            },
        }
    }
    assert(all.skip(all.len() as int) =~= Seq::empty());
    assert(texts(lines@) + Seq::<Seq<char>>::empty() =~= texts(lines@));
    Ok(lines)
}

/// Lists the files in a package.
pub fn list_lines(data: &[u8]) -> (lines: Result<Vec<String>, PkgError>)
    ensures
        match lines {
            Ok(lines) => listing(data@) == Ok::<Seq<Seq<char>>, PkgErrorView>(texts(lines@)),
            Err(e) => listing(data@) == Err::<Seq<Seq<char>>, PkgErrorView>(e@),
        },
{
    match open_package(data) {
        Ok((header, entries)) => list_entries(data, &header, &entries),
        Err(e) => Err(e),
    }
}

// ---------------------------------------------------------------------------
// Counting
// ---------------------------------------------------------------------------

/// How many files the archives `entries` hold together; the first that cannot be read stops the
/// count.
pub open spec fn file_total(data: Seq<u8>, header: XarHeader, entries: Seq<EntryView>) -> Result<
    nat,
    PkgErrorView,
>
    decreases entries.len(),
{
    if entries.len() == 0 {
        Ok(0)
    } else {
        match payload(data, header, entries[0]) {
            Err(e) => Err(e),
            Ok(archive) => match cpio_files(archive).error {
                Some(e) => Err(PkgErrorView::Archive(e)),
                None => match file_total(data, header, entries.drop_first()) {
                    Err(e) => Err(e),
                    Ok(more) => Ok(cpio_files(archive).files.len() + more),
                },
            },
        }
    }
}

/// Counts the files in the archive `entry`.
fn count_entry_files(data: &[u8], header: &XarHeader, entry: &PayloadEntry) -> (count: Result<
    u64,
    PkgError,
>)
    ensures
        match payload(data@, *header, entry@) {
            Err(why) => count matches Err(e) && e@ == why,
            Ok(archive) => match cpio_files(archive).error {
                Some(why) => count matches Err(e) && e@ == PkgErrorView::Archive(why),
                None => count matches Ok(n) && n == cpio_files(archive).files.len(),
            },
        },
{
    match decode_payload_bytes(data, header, entry) {
        Ok(archive) => match count_cpio_files(archive.as_slice()) {
            Ok(n) => Ok(n),
            Err(e) => Err(PkgError::Archive(e)),
        },
        Err(e) => Err(e),
    }
}

/// Counts the files in the archives `entries`, modulo what a `u64` can hold.
pub fn count_total_files(data: &[u8], header: &XarHeader, entries: &[PayloadEntry]) -> (total:
    Result<u64, PkgError>)
    ensures
        match total {
            Ok(n) => file_total(data@, *header, entries_view(entries@)) is Ok && n == counted(
                file_total(data@, *header, entries_view(entries@))->Ok_0 as int,
            ),
            Err(e) => file_total(data@, *header, entries_view(entries@)) == Err::<
                nat,
                PkgErrorView,
            >(e@),
        },
{
    let ghost all = entries_view(entries@);
    let ghost mut sum: nat = 0;
    let mut total: u64 = 0;
    assert(counted(0) == 0) by {
        reveal(counted);
    }
    assert(all.skip(0) =~= all);
    for i in 0..entries.len()
        invariant
            all == entries_view(entries@),
            total == counted(sum as int),
            match file_total(data@, *header, all.skip(i as int)) {
                Ok(more) => file_total(data@, *header, all) == Ok::<nat, PkgErrorView>(sum + more),
                Err(e) => file_total(data@, *header, all) == Err::<nat, PkgErrorView>(e),
            },
    {
        assert(all.skip(i as int).drop_first() =~= all.skip(i + 1));
        assert(all.skip(i as int)[0] == entries@[i as int]@);
        match count_entry_files(data, header, &entries[i]) {
            Ok(n) => {
                proof {
                    lemma_counted(sum as int, n);
                    sum = sum + n as nat;
                }
                total = total.wrapping_add(n);
            },
            Err(e) => {
                return Err(e);
            },
        }
    }
    assert(all.skip(all.len() as int) =~= Seq::empty());
    Ok(total)
}

/// Finds what is to be extracted, and counts its files, before anything is written.
pub fn plan_extraction(data: &[u8]) -> (plan: Result<
    (XarHeader, Vec<PayloadEntry>, u64),
    PkgError,
>)
    ensures
        match plan {
            Ok((header, entries, total)) => {
                &&& package(data@) == Ok::<(XarHeader, Seq<EntryView>), PkgErrorView>(
                    (header, entries_view(entries@)),
                )
                &&& file_total(data@, header, entries_view(entries@)) is Ok
                &&& total == counted(
                    file_total(data@, header, entries_view(entries@))->Ok_0 as int,
                )
            },
            Err(e) => match package(data@) {
                Err(why) => e@ == why,
                Ok((header, entries)) => file_total(data@, header, entries) == Err::<
                    nat,
                    PkgErrorView,
                >(e@),
            },
        },
{
    let (header, entries) = match open_package(data) {
        Ok(opened) => opened,
        Err(e) => {
            return Err(e);
        },
    };
    match count_total_files(data, &header, entries.as_slice()) {
        Ok(total) => Ok((header, entries, total)),
        Err(e) => Err(e),
    }
}

} // verus!
