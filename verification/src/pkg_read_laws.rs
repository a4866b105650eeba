//! What is read from the parts of a package.

use vstd::prelude::*;
use vstd::utf8::{encode_utf8, encode_utf8_decode_utf8, encode_utf8_valid_utf8, valid_utf8};

use crate::cpio::{cpio_files, CpioEntryView};
use crate::inflate::{gunzipped, inflated};
use crate::numbers::{decimal, run_of};
use crate::pkg::{
    archive_listing, entries_listing, file_line, file_total, found_in, package, payload,
};
use crate::pkg_error::PkgErrorView;
use crate::pkg_write_laws::{files_of, is_readable};
use crate::select::selected;
use crate::text::begins_with;
use crate::toc::{entries_in, EntryKind, EntryView, HeapEncoding};
use crate::toc_read_laws::{element, is_blank, law_table_read_back, Tree};
use crate::toc_laws::Forest;
use crate::xar::{big_endian, toc_xml, xar_header, xar_magic, XarHeader};
use crate::xml::document_events;

verus! {

// ---------------------------------------------------------------------------
// The frame
// ---------------------------------------------------------------------------

/// A file is taken for a XAR archive by its first four characters, `xar!`, and its length.
pub proof fn law_other_files_are_no_archives(data: Seq<u8>)
    ensures
        xar_header(data) == Err::<XarHeader, PkgErrorView>(PkgErrorView::NotXar) <==> data.len()
            < 28 || data[0] != 0x78 || data[1] != 0x61 || data[2] != 0x72 || data[3] != 0x21,
{
    if data.len() >= 28 {
        let start = data.subrange(0, 4);
        let magic = xar_magic();
        if begins_with(data, magic) {
            assert(start[0] == magic[0] && start[1] == magic[1] && start[2] == magic[2] && start[3]
                == magic[3]);
        }
        if data[0] == 0x78 && data[1] == 0x61 && data[2] == 0x72 && data[3] == 0x21 {
            assert(start =~= magic);
        }
    }
}

/// The numbers of a header stand at fixed places, largest byte first.
pub proof fn law_places_of_the_header(data: Seq<u8>)
    ensures
        xar_header(data) matches Ok(header) ==> {
            &&& header.header_size == data[4] * 0x100 + data[5]
            &&& header.toc_length_compressed == data[8] * 0x100_0000_0000_0000 + data[9]
                * 0x1_0000_0000_0000 + data[10] * 0x100_0000_0000 + data[11] * 0x1_0000_0000
                + data[12] * 0x100_0000 + data[13] * 0x1_0000 + data[14] * 0x100 + data[15]
            &&& header.header_size >= 28
            &&& header.header_size + header.toc_length_compressed <= data.len()
        },
{
    if xar_header(data) is Ok {
        reveal_with_fuel(big_endian, 9);
        let s = data.subrange(4, 6);
        assert(s.drop_last().last() == data[4]);
        let t = data.subrange(8, 16);
        assert(t[0] == data[8] && t[1] == data[9] && t[2] == data[10] && t[3] == data[11] && t[4]
            == data[12] && t[5] == data[13] && t[6] == data[14] && t[7] == data[15]);
    }
}

/// The table of contents lies between the header and the heap, packed, and its text is read back;
/// one that is not text is refused.
pub proof fn law_table_lies_behind_the_header(
    head: Seq<u8>,
    packed: Seq<u8>,
    heap: Seq<u8>,
    header: XarHeader,
    text: Seq<char>,
)
    requires
        head.len() == header.header_size,
        packed.len() == header.toc_length_compressed,
    ensures
        inflated(packed) == Ok::<Seq<u8>, Seq<char>>(encode_utf8(text)) ==> toc_xml(
            head + packed + heap,
            header,
        ) == Ok::<Seq<char>, PkgErrorView>(text),
        inflated(packed) matches Err(cause) ==> toc_xml(head + packed + heap, header) == Err::<
            Seq<char>,
            PkgErrorView,
        >(PkgErrorView::TocUnreadable(cause)),
        (inflated(packed) matches Ok(bytes) && !valid_utf8(bytes)) ==> (toc_xml(
            head + packed + heap,
            header,
        ) matches Err(PkgErrorView::TocUnreadable(_))),
{
    let data = head + packed + heap;
    assert(data.subrange(head.len() as int, (head.len() + packed.len()) as int) =~= packed);
    encode_utf8_decode_utf8(text);
    encode_utf8_valid_utf8(text);
}

// ---------------------------------------------------------------------------
// The heap
// ---------------------------------------------------------------------------

/// `bytes` are a gzip stream by their first two.
pub open spec fn looks_packed(bytes: Seq<u8>) -> bool {
    bytes.len() >= 2 && bytes[0] == 0x1f && bytes[1] == 0x8b
}

proof fn lemma_looks_packed(bytes: Seq<u8>)
    ensures
        looks_packed(bytes) == begins_with(bytes, seq![0x1fu8, 0x8b]),
{
    let magic = seq![0x1fu8, 0x8b];
    if bytes.len() >= 2 {
        let start = bytes.subrange(0, 2);
        if begins_with(bytes, magic) {
            assert(start[0] == magic[0] && start[1] == magic[1]);
        }
        if looks_packed(bytes) {
            assert(start =~= magic);
        }
    }
}

/// The bytes of an entry lie in the heap, which follows the header and the table, at its offset
/// and over its length. An archive that is stored as it is comes out as it is; one that is packed
/// comes out unpacked, as its encoding says; and one that is still a gzip stream then is unpacked
/// once more. Where the unpacking fails, its own message is told, with the path of the entry.
pub proof fn law_entries_lie_in_the_heap(
    head: Seq<u8>,
    table: Seq<u8>,
    before: Seq<u8>,
    body: Seq<u8>,
    after: Seq<u8>,
    header: XarHeader,
    entry: EntryView,
)
    requires
        head.len() == header.header_size,
        table.len() == header.toc_length_compressed,
        before.len() == entry.heap_offset,
        body.len() == entry.heap_length,
    ensures
        ({
            let archive = payload(head + table + before + body + after, header, entry);
            let path = entry.full_path;
            match entry.encoding {
                HeapEncoding::Raw => if !looks_packed(body) {
                    archive == Ok::<Seq<u8>, PkgErrorView>(body)
                } else {
                    match gunzipped(body) {
                        Ok(bytes) => archive == Ok::<Seq<u8>, PkgErrorView>(bytes),
                        Err(cause) => archive == Err::<Seq<u8>, PkgErrorView>(
                            PkgErrorView::ArchiveGunzip { path, cause },
                        ),
                    }
                },
                HeapEncoding::Gzip => match gunzipped(body) {
                    Ok(bytes) => !looks_packed(bytes) ==> archive == Ok::<Seq<u8>, PkgErrorView>(
                        bytes,
                    ),
                    Err(cause) => archive == Err::<Seq<u8>, PkgErrorView>(
                        PkgErrorView::BlobGunzip { path, cause },
                    ),
                },
                HeapEncoding::Zlib => match inflated(body) {
                    Ok(bytes) => if !looks_packed(bytes) {
                        archive == Ok::<Seq<u8>, PkgErrorView>(bytes)
                    } else {
                        match gunzipped(bytes) {
                            Ok(inner) => archive == Ok::<Seq<u8>, PkgErrorView>(inner),
                            Err(cause) => archive == Err::<Seq<u8>, PkgErrorView>(
                                PkgErrorView::ArchiveGunzip { path, cause },
                            ),
                        }
                    },
                    Err(cause) => archive == Err::<Seq<u8>, PkgErrorView>(
                        PkgErrorView::BlobInflate { path, cause },
                    ),
                },
                HeapEncoding::Bzip2 | HeapEncoding::Other => archive == Err::<
                    Seq<u8>,
                    PkgErrorView,
                >(PkgErrorView::UnsupportedEncoding { path }),
            }
        }),
{
    let data = head + table + before + body + after;
    let start = (head.len() + table.len() + before.len()) as int;
    assert(data.subrange(start, start + body.len()) =~= body);
    lemma_looks_packed(body);
    if let Ok(bytes) = gunzipped(body) {
        lemma_looks_packed(bytes);
    }
    if let Ok(bytes) = inflated(body) {
        lemma_looks_packed(bytes);
    }
}

/// An entry that reaches beyond the end of the file is refused, and told with the place that it
/// was looked for at; no other is refused so.
pub proof fn law_entries_past_the_end_are_refused(
    data: Seq<u8>,
    header: XarHeader,
    entry: EntryView,
)
    ensures
        ({
            let start = header.header_size + header.toc_length_compressed + entry.heap_offset;
            let end = start + entry.heap_length;
            &&& end > data.len() ==> payload(data, header, entry) == Err::<Seq<u8>, PkgErrorView>(
                PkgErrorView::PastEnd {
                    path: entry.full_path,
                    start,
                    end,
                    len: data.len() as int,
                },
            )
            &&& end <= data.len() ==> !(payload(data, header, entry) matches Err(
                PkgErrorView::PastEnd { .. },
            ))
        }),
{
}

// ---------------------------------------------------------------------------
// The package
// ---------------------------------------------------------------------------

/// A package is opened: where its header is sound and its packed table lists the files and
/// directories of `tree`, the archives to extract are chosen from exactly those that `tree` lists,
/// and there being none is told.
pub proof fn law_package_read_back(
    head: Seq<u8>,
    packed: Seq<u8>,
    heap: Seq<u8>,
    header: XarHeader,
    text: Seq<char>,
    tree: Tree,
    a: Seq<char>,
    b: Seq<char>,
)
    requires
        xar_header(head + packed + heap) == Ok::<XarHeader, PkgErrorView>(header),
        head.len() == header.header_size,
        packed.len() == header.toc_length_compressed,
        inflated(packed) == Ok::<Seq<u8>, Seq<char>>(encode_utf8(text)),
        is_blank(a),
        is_blank(b),
        document_events(text).error is None,
        document_events(text).events == element(
            "xar"@,
            element("toc"@, tree.elements(a, b), Forest::Nil),
            Forest::Nil,
        ).events(),
    ensures
        ({
            let kept = selected(tree.archives(Seq::empty()));
            package(head + packed + heap) == if kept.len() == 0 {
                Err::<(XarHeader, Seq<EntryView>), PkgErrorView>(PkgErrorView::NothingToExtract)
            } else {
                Ok((header, kept))
            }
        }),
{
    law_table_lies_behind_the_header(head, packed, heap, header, text);
    law_table_read_back(tree, a, b);
    let found = found_in(text);
    assert(found == Ok::<Seq<EntryView>, Seq<char>>(entries_in(document_events(text).events)));
}

/// A table that cannot be read to its end is told of, with the message of the reader.
pub proof fn law_malformed_tables_are_told(data: Seq<u8>, header: XarHeader, text: Seq<char>)
    requires
        xar_header(data) == Ok::<XarHeader, PkgErrorView>(header),
        toc_xml(data, header) == Ok::<Seq<char>, PkgErrorView>(text),
    ensures
        document_events(text).error matches Some(cause) ==> package(data) == Err::<
            (XarHeader, Seq<EntryView>),
            PkgErrorView,
        >(PkgErrorView::TocMalformed(cause)),
        document_events(text).error is None ==> (package(data) matches Err(e) ==> e
            == PkgErrorView::NothingToExtract),
{
}

// ---------------------------------------------------------------------------
// The listing
// ---------------------------------------------------------------------------

/// How many files the first `k` archives hold together.
pub open spec fn files_before(
    data: Seq<u8>,
    header: XarHeader,
    entries: Seq<EntryView>,
    k: int,
) -> nat
    decreases k,
{
    if k <= 0 {
        0
    } else {
        files_before(data, header, entries, k - 1) + files_of(data, header, entries[k - 1]).len()
    }
}

proof fn lemma_files_before(data: Seq<u8>, header: XarHeader, entries: Seq<EntryView>, k: int)
    requires
        0 < k <= entries.len(),
    ensures
        files_before(data, header, entries, k) == files_of(data, header, entries[0]).len()
            + files_before(data, header, entries.drop_first(), k - 1),
    decreases k,
{
    reveal_with_fuel(files_before, 2);
    if k > 1 {
        lemma_files_before(data, header, entries, k - 1);
        assert(entries[k - 1] == entries.drop_first()[k - 2]);
    }
}

/// `line` is the heading of `entry`: its path and, in brackets, what it is.
pub open spec fn is_heading_of(line: Seq<char>, entry: EntryView) -> bool {
    line == "== "@ + entry.full_path + " ("@ + (if entry.kind == EntryKind::Payload {
        "Payload"@
    } else {
        "Scripts"@
    }) + ") =="@
}

/// `line` is the line of a file: its size, in decimal and in a column of at least ten characters,
/// two spaces, and its name.
#[verifier::opaque]
pub open spec fn is_line_of(line: Seq<char>, file: CpioEntryView) -> bool {
    let size = decimal(file.file_size as nat);
    let column = line.take(line.len() - file.name.len() - 2);
    &&& line.len() >= size.len() + 2 + file.name.len()
    &&& line.skip(line.len() - file.name.len()) == file.name
    &&& line[line.len() - file.name.len() - 1] == ' '
    &&& line[line.len() - file.name.len() - 2] == ' '
    &&& size.len() < 10 ==> column.len() == 10
    &&& size.len() >= 10 ==> column == size
    &&& column.skip(column.len() - size.len()) == size
    &&& forall|i: int| 0 <= i < column.len() - size.len() ==> #[trigger] column[i] == ' '
}

proof fn lemma_file_line(file: CpioEntryView)
    ensures
        is_line_of(file_line(file), file),
{
    reveal(is_line_of);
    reveal_strlit("  ");
    let size = decimal(file.file_size as nat);
    let pad = run_of(' ', 10 - size.len());
    let line = file_line(file);
    let column = line.take(line.len() - file.name.len() - 2);
    assert(column =~= pad + size);
    assert(line.skip(line.len() - file.name.len()) =~= file.name);
    assert(column.skip(column.len() - size.len()) =~= size);
    if size.len() >= 10 {
        assert(column =~= size);
    }
}

#[verifier::rlimit(60)]
proof fn lemma_listing_at(
    data: Seq<u8>,
    header: XarHeader,
    entries: Seq<EntryView>,
    k: int,
)
    requires
        forall|j: int| 0 <= j < entries.len() ==> is_readable(data, header, #[trigger] entries[j]),
        0 <= k <= entries.len(),
    ensures
        entries_listing(data, header, entries) is Ok,
        ({
            let lines = entries_listing(data, header, entries)->Ok_0;
            let at = k + files_before(data, header, entries, k);
            &&& lines.len() == entries.len() + files_before(
                data,
                header,
                entries,
                entries.len() as int,
            )
            &&& k < entries.len() ==> {
                let own = files_of(data, header, entries[k]);
                &&& at + own.len() < lines.len()
                &&& is_heading_of(lines[at], entries[k])
                &&& forall|i: int|
                    0 <= i < own.len() ==> is_line_of(#[trigger] lines[at + 1 + i], own[i].0)
            }
        }),
    decreases entries.len(),
{
    if entries.len() == 0 {
        assert(files_before(data, header, entries, 0) == 0);
    } else {
        let rest = entries.drop_first();
        let first = entries[0];
        assert(is_readable(data, header, first));
        assert forall|j: int| 0 <= j < rest.len() implies is_readable(
            data,
            header,
            #[trigger] rest[j],
        ) by {
            assert(rest[j] == entries[j + 1]);
        }
        let n = entries.len() as int;
        lemma_listing_at(data, header, rest, if k > 0 { k - 1 } else { 0 });
        lemma_files_before(data, header, entries, n);
        let more = entries_listing(data, header, rest)->Ok_0;
        let archive = payload(data, header, first)->Ok_0;
        let own = archive_listing(first, archive)->Ok_0;
        let lines = entries_listing(data, header, entries)->Ok_0;
        let files = files_of(data, header, first);
        assert(own.len() == 1 + files.len());
        assert(lines == own + more);
        if k == 0 {
            assert(files_before(data, header, entries, 0) == 0);
            assert(lines[0] == own[0]);
            assert forall|i: int| 0 <= i < files.len() implies is_line_of(
                #[trigger] lines[0 + 1 + i],
                files[i].0,
            ) by {
                assert(lines[1 + i] == own[1 + i]);
                assert(own[1 + i] == file_line(files[i].0));
                lemma_file_line(files[i].0);
            }
        } else {
            lemma_files_before(data, header, entries, k);
            if k < n {
                assert(entries[k] == rest[k - 1]);
                let there = k - 1 + files_before(data, header, rest, k - 1);
                let at = k + files_before(data, header, entries, k);
                assert(at == own.len() + there);
                assert(lines[at] == more[there]);
                let held = files_of(data, header, entries[k]);
                assert forall|i: int| 0 <= i < held.len() implies is_line_of(
                    #[trigger] lines[at + 1 + i],
                    held[i].0,
                ) by {
                    assert(lines[at + 1 + i] == more[there + 1 + i]);
                }
            }
        }
    }
}

/// Every file of every archive is listed, in order, under the heading of its archive: the line of
/// archive number `k` stands behind those of the archives before it, and the line of its file
/// number `i` that many lines below it. Nothing else is listed.
pub proof fn law_every_file_is_listed(
    data: Seq<u8>,
    header: XarHeader,
    entries: Seq<EntryView>,
    k: int,
    i: int,
)
    requires
        forall|j: int| 0 <= j < entries.len() ==> is_readable(data, header, #[trigger] entries[j]),
        0 <= k < entries.len(),
        0 <= i < files_of(data, header, entries[k]).len(),
    ensures
        entries_listing(data, header, entries) matches Ok(lines) && {
            let at = k + files_before(data, header, entries, k);
            &&& lines.len() == entries.len() + files_before(
                data,
                header,
                entries,
                entries.len() as int,
            )
            &&& is_heading_of(lines[at], entries[k])
            &&& is_line_of(lines[at + 1 + i], files_of(data, header, entries[k])[i].0)
        },
{
    lemma_listing_at(data, header, entries, k);
    let lines = entries_listing(data, header, entries)->Ok_0;
    let at = k + files_before(data, header, entries, k);
    assert(is_line_of(lines[at + 1 + i], files_of(data, header, entries[k])[i].0));
}

/// The files of a readable package are counted one by one, over all its archives.
pub proof fn law_all_files_are_counted(data: Seq<u8>, header: XarHeader, entries: Seq<EntryView>)
    requires
        forall|j: int| 0 <= j < entries.len() ==> is_readable(data, header, #[trigger] entries[j]),
    ensures
        file_total(data, header, entries) == Ok::<nat, PkgErrorView>(
            files_before(data, header, entries, entries.len() as int),
        ),
    decreases entries.len(),
{
    if entries.len() > 0 {
        let rest = entries.drop_first();
        assert(is_readable(data, header, entries[0]));
        assert forall|j: int| 0 <= j < rest.len() implies is_readable(
            data,
            header,
            #[trigger] rest[j],
        ) by {
            assert(rest[j] == entries[j + 1]);
        }
        law_all_files_are_counted(data, header, rest);
        lemma_files_before(data, header, entries, entries.len() as int);
    }
}

/// The first archive that cannot be read stops the listing and the count, with its own error.
pub proof fn law_the_first_unreadable_archive_stops(
    data: Seq<u8>,
    header: XarHeader,
    entries: Seq<EntryView>,
    k: int,
)
    requires
        0 <= k < entries.len(),
        forall|j: int| 0 <= j < k ==> is_readable(data, header, #[trigger] entries[j]),
        !is_readable(data, header, entries[k]),
    ensures
        ({
            let e = match payload(data, header, entries[k]) {
                Err(e) => e,
                Ok(archive) => PkgErrorView::Archive(cpio_files(archive).error.unwrap()),
            };
            &&& entries_listing(data, header, entries) == Err::<Seq<Seq<char>>, PkgErrorView>(e)
            &&& file_total(data, header, entries) == Err::<nat, PkgErrorView>(e)
        }),
    decreases k,
{
    if k > 0 {
        let rest = entries.drop_first();
        assert(is_readable(data, header, entries[0]));
        assert forall|j: int| 0 <= j < k - 1 implies is_readable(
            data,
            header,
            #[trigger] rest[j],
        ) by {
            assert(rest[j] == entries[j + 1]);
        }
        assert(rest[k - 1] == entries[k]);
        law_the_first_unreadable_archive_stops(data, header, rest, k - 1);
    }
}

} // verus!
