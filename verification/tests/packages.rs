use std::io::Write;

use flate2::write::{GzEncoder, ZlibEncoder};
use flate2::Compression;

use gogextract::messages::{pkg_message, scripts_warning, unsafe_cpio_warning};
use gogextract::pkg::{
    choose_entries, count_total_files, decode_blob, decode_payload_bytes, heap_blob, is_gzip,
    list_lines, open_package, plan_extraction, unpacked_archive, unpacked_blob,
};
use gogextract::pkg_error::PkgError;
use gogextract::pkg_extract::{ExtractStep, PkgExtraction};
use gogextract::safe_path::sanitize_cpio_path;
use gogextract::select::{component_dir, component_name, select_extractable_entries};
use gogextract::toc::{EntryKind, HeapEncoding, PayloadEntry};
use gogextract::xar::{parse_xar_header, read_toc_xml, toc_text, XarHeader};

fn newc(name: &str, mode: u32, body: &[u8]) -> Vec<u8> {
    let mut out = b"070701".to_vec();
    let fields = [
        7u32, mode, 0, 0, 1, 0, body.len() as u32, 0, 0, 0, 0, name.len() as u32 + 1, 0,
    ];
    for f in fields {
        out.extend_from_slice(format!("{f:08X}").as_bytes());
    }
    out.extend_from_slice(name.as_bytes());
    out.push(0);
    while out.len() % 4 != 0 {
        out.push(0);
    }
    out.extend_from_slice(body);
    while out.len() % 4 != 0 {
        out.push(0);
    }
    out
}

fn gz(data: &[u8]) -> Vec<u8> {
    let mut e = GzEncoder::new(Vec::new(), Compression::default());
    e.write_all(data).unwrap();
    e.finish().unwrap()
}

fn zl(data: &[u8]) -> Vec<u8> {
    let mut e = ZlibEncoder::new(Vec::new(), Compression::default());
    e.write_all(data).unwrap();
    e.finish().unwrap()
}

fn archive() -> Vec<u8> {
    let mut out = newc("./Game", 0o040755, b"");
    out.extend(newc("./Game/data.bin", 0o100644, b"12345"));
    out.extend(newc("./Game/../../evil", 0o100644, b"no"));
    out.extend(newc("./Game/run.sh", 0o100755, b"#!"));
    out.extend(newc("TRAILER!!!", 0, b""));
    out
}

fn file(name: &str, offset: usize, length: usize, style: &str) -> String {
    format!(
        "<file><name>{name}</name><type>file</type><data><offset>{offset}</offset>\
         <length>{length}</length><encoding style=\"{style}\"/></data></file>"
    )
}

fn xar(toc: &str, heap: &[u8]) -> Vec<u8> {
    let packed = zl(toc.as_bytes());
    let mut out = b"xar!".to_vec();
    out.extend_from_slice(&28u16.to_be_bytes());
    out.extend_from_slice(&1u16.to_be_bytes());
    out.extend_from_slice(&(packed.len() as u64).to_be_bytes());
    out.extend_from_slice(&(toc.len() as u64).to_be_bytes());
    out.extend_from_slice(&1u32.to_be_bytes());
    out.extend_from_slice(&packed);
    out.extend_from_slice(heap);
    out
}

fn single(blob: &[u8], style: &str) -> Vec<u8> {
    let toc = format!(
        "<xar><toc><file><name>Game.pkg</name><type>directory</type>{}</file></toc></xar>",
        file("Payload", 0, blob.len(), style)
    );
    xar(&toc, blob)
}

fn entry(kind: EntryKind, path: &str) -> PayloadEntry {
    PayloadEntry {
        kind,
        full_path: path.to_owned(),
        heap_offset: 0,
        heap_length: 0,
        encoding: HeapEncoding::Raw,
    }
}

#[test]
fn header_is_parsed() {
    let data = single(b"x", "application/octet-stream");
    let header = parse_xar_header(&data).unwrap();
    assert_eq!(header.header_size, 28);
    assert_eq!(header.toc_length_compressed as usize + 28 + 1, data.len());
    let xml = read_toc_xml(&data, &header).unwrap();
    assert!(xml.starts_with("<xar><toc>"));
}

#[test]
fn bad_headers_are_refused() {
    let good = single(b"x", "application/octet-stream");
    let error = |data: &[u8]| pkg_message(&parse_xar_header(data).unwrap_err());
    assert_eq!(error(&good[..27]), "Not a XAR archive (missing 'xar!' magic)");
    assert_eq!(error(b"PK34aaaaaaaaaaaaaaaaaaaaaaaaaaaaaaaaaaa"), error(b""));
    let mut small = good.clone();
    small[5] = 27;
    assert_eq!(
        error(&small),
        "XAR header_size field (27) is smaller than the minimum 28 bytes"
    );
    let mut long = good.clone();
    long[8] = 0xff;
    assert_eq!(error(&long), "XAR file is truncated: TOC extends past end of file");
    let mut huge = good;
    for b in &mut huge[8..16] {
        *b = 0xff;
    }
    assert!(matches!(parse_xar_header(&huge), Err(PkgError::TocTruncated)));
}

#[test]
fn table_that_does_not_unpack_is_refused() {
    let mut data = single(b"x", "application/octet-stream");
    data[30] ^= 0xff;
    data[31] ^= 0xff;
    let header = parse_xar_header(&data).unwrap();
    let e = read_toc_xml(&data, &header).unwrap_err();
    assert!(matches!(e, PkgError::TocUnreadable(_)));
    let packed = zl(&[0xff, 0xfe]);
    let header = XarHeader { header_size: 0, toc_length_compressed: packed.len() as u64 };
    assert_eq!(
        pkg_message(&read_toc_xml(&packed, &header).unwrap_err()),
        "Failed to inflate XAR table of contents: stream did not contain valid UTF-8"
    );
    assert_eq!(toc_text(Ok(b"<a/>".to_vec())).unwrap(), "<a/>");
    assert!(matches!(
        toc_text(Err("why".to_owned())),
        Err(PkgError::TocUnreadable(cause)) if cause == "why"
    ));
}

#[test]
fn packages_are_listed() {
    let lines = list_lines(&single(&gz(&archive()), "application/octet-stream")).unwrap();
    assert_eq!(
        lines,
        [
            "== Game.pkg/Payload (Payload) ==",
            "         5  ./Game/data.bin",
            "         2  ./Game/../../evil",
            "         2  ./Game/run.sh",
        ]
    );
}

#[test]
fn every_packing_unpacks_to_the_same() {
    let plain = archive();
    for (blob, style) in [
        (plain.clone(), "application/octet-stream"),
        (gz(&plain), "application/octet-stream"),
        (gz(&plain), "application/x-gzip"),
        (gz(&gz(&plain)), "application/x-gzip"),
        (zl(&plain), "application/zlib"),
        (zl(&gz(&plain)), "application/x-zlib"),
    ] {
        let data = single(&blob, style);
        let (header, entries) = open_package(&data).unwrap();
        assert_eq!(decode_payload_bytes(&data, &header, &entries[0]).unwrap(), plain);
    }
}

#[test]
fn blobs_that_do_not_unpack_are_refused() {
    let fail = |blob: &[u8], style: &str| {
        let data = single(blob, style);
        let (header, entries) = open_package(&data).unwrap();
        decode_payload_bytes(&data, &header, &entries[0]).unwrap_err()
    };
    assert!(matches!(fail(b"junk", "gzip"), PkgError::BlobGunzip { .. }));
    assert!(matches!(fail(b"junk", "zlib"), PkgError::BlobInflate { .. }));
    assert!(matches!(
        fail(&[0x1f, 0x8b, 0, 0], "octet-stream"),
        PkgError::ArchiveGunzip { .. }
    ));
    assert_eq!(
        pkg_message(&fail(b"junk", "bzip2")),
        "Payload entry 'Game.pkg/Payload' uses an unsupported XAR heap encoding"
    );
    assert!(matches!(fail(b"junk", "lzma"), PkgError::UnsupportedEncoding { .. }));
    let e = entry(EntryKind::Payload, "P");
    assert_eq!(decode_blob(&e, b"as it is").unwrap(), b"as it is");
    assert!(is_gzip(&[0x1f, 0x8b]));
    assert!(!is_gzip(&[0x1f]));
}

#[test]
fn causes_are_kept() {
    let mut e = entry(EntryKind::Payload, "P");
    e.encoding = HeapEncoding::Gzip;
    assert_eq!(
        pkg_message(&unpacked_blob(&e, Err("bad".to_owned())).unwrap_err()),
        "Failed to gunzip XAR heap blob 'P': bad"
    );
    e.encoding = HeapEncoding::Zlib;
    assert_eq!(
        pkg_message(&unpacked_blob(&e, Err("bad".to_owned())).unwrap_err()),
        "Failed to inflate XAR heap blob 'P': bad"
    );
    assert_eq!(
        pkg_message(&unpacked_archive(&e, Err("bad".to_owned())).unwrap_err()),
        "Failed to gunzip cpio stream 'P': bad"
    );
    assert_eq!(unpacked_archive(&e, Ok(vec![1])).unwrap(), [1]);
    assert_eq!(unpacked_blob(&e, Ok(vec![2])).unwrap(), [2]);
    assert_eq!(
        pkg_message(&choose_entries(Err("odd".to_owned())).unwrap_err()),
        "Malformed XAR TOC XML: odd"
    );
}

#[test]
fn entry_past_the_end_is_refused() {
    let header = XarHeader { header_size: 28, toc_length_compressed: 2 };
    let mut e = entry(EntryKind::Payload, "P");
    e.heap_offset = 10;
    e.heap_length = u64::MAX;
    let data = vec![0u8; 64];
    assert_eq!(
        pkg_message(&heap_blob(&data, &header, &e).unwrap_err()),
        "Payload entry 'P' extends past end of file (heap range 40..18446744073709551655, file len 64)"
    );
    e.heap_length = 24;
    assert_eq!(heap_blob(&data, &header, &e).unwrap().len(), 24);
}

#[test]
fn package_without_archives_is_refused() {
    let data = xar("<xar><toc/></xar>", b"");
    assert_eq!(
        pkg_message(&list_lines(&data).unwrap_err()),
        "No Payload or Scripts entries found in this .pkg (nothing to extract)"
    );
    assert!(matches!(plan_extraction(&data), Err(PkgError::NothingToExtract)));
    assert!(matches!(
        list_lines(&xar("<xar><toc></xar>", b"")),
        Err(PkgError::TocMalformed(_))
    ));
}

#[test]
fn payload_is_preferred_to_scripts() {
    let kept = select_extractable_entries(vec![
        entry(EntryKind::Scripts, "A.pkg/Scripts"),
        entry(EntryKind::Payload, "A.pkg/Payload"),
        entry(EntryKind::Scripts, "B.pkg/Scripts"),
        entry(EntryKind::Payload, "C/D.pkg/Payload"),
        entry(EntryKind::Payload, "A.pkg/Payload"),
    ]);
    let paths: Vec<&str> = kept.iter().map(|e| e.full_path.as_str()).collect();
    assert_eq!(
        paths,
        ["A.pkg/Payload", "B.pkg/Scripts", "C/D.pkg/Payload", "A.pkg/Payload"]
    );
    assert!(select_extractable_entries(Vec::new()).is_empty());
}

#[test]
fn entries_at_the_root_share_a_component() {
    assert_eq!(component_dir("Game.pkg/Payload"), "Game.pkg/");
    assert_eq!(component_dir("a/b/c"), "a/b/");
    assert_eq!(component_dir("Payload"), "");
    assert_eq!(component_name("Payload"), "Payload");
    assert_eq!(component_name("a/b/c"), "a/b");
    assert_eq!(component_dir("/x"), "/");
    let kept = select_extractable_entries(vec![
        entry(EntryKind::Scripts, "Scripts"),
        entry(EntryKind::Payload, "Payload"),
    ]);
    assert_eq!(kept.len(), 1);
    assert_eq!(kept[0].full_path, "Payload");
    let apart = select_extractable_entries(vec![
        entry(EntryKind::Payload, "Payload"),
        entry(EntryKind::Payload, "/Payload"),
    ]);
    assert_eq!(apart.len(), 2);
    let alone = select_extractable_entries(vec![entry(EntryKind::Scripts, "Scripts")]);
    assert_eq!(alone.len(), 1);
}

#[test]
fn one_archive_is_extracted_flat() {
    let data = single(&gz(&archive()), "application/octet-stream");
    let (header, entries, total) = plan_extraction(&data).unwrap();
    assert_eq!(total, 3);
    assert_eq!(count_total_files(&data, &header, &entries).unwrap(), 3);
    let mut run = PkgExtraction::new(&data, header, &entries, false);
    match run.step(true).unwrap() {
        ExtractStep::Write(w) => {
            assert_eq!(w.component, None);
            assert_eq!(w.path, "Game/data.bin");
            assert_eq!(w.permissions, Some(0o644));
            assert_eq!(w.body, b"12345");
            assert_eq!(w.files_done, 1);
        }
        other => panic!("{other:?}"),
    }
    match run.step(true).unwrap() {
        ExtractStep::WarnUnsafe(name) => {
            assert_eq!(
                unsafe_cpio_warning(&name),
                "Skipping unsafe path in cpio: \"./Game/../../evil\""
            );
        }
        other => panic!("{other:?}"),
    }
    assert!(matches!(run.step(false), Ok(ExtractStep::Cancelled)));
    match run.step(true).unwrap() {
        ExtractStep::Write(w) => {
            assert_eq!((w.path.as_str(), w.permissions), ("Game/run.sh", Some(0o755)));
            assert_eq!(w.files_done, 2);
        }
        other => panic!("{other:?}"),
    }
    assert!(matches!(run.step(false), Ok(ExtractStep::Finished)));
    assert!(matches!(run.step(true), Ok(ExtractStep::Finished)));
    assert_eq!(run.files_written(), 2);
}

#[test]
fn several_archives_are_kept_apart() {
    let a = newc("a", 0, b"A");
    let b = newc("a", 0o100600, b"B");
    let mut heap = a.clone();
    heap.extend_from_slice(&b);
    let raw = "application/octet-stream";
    let toc = format!(
        "<xar><toc><file><name>A.pkg</name>{}</file><file><name>B.pkg</name>{}</file></toc></xar>",
        file("Payload", 0, a.len(), raw),
        file("Scripts", a.len(), b.len(), raw)
    );
    let data = xar(&toc, &heap);
    let (header, entries, total) = plan_extraction(&data).unwrap();
    assert_eq!(total, 2);
    let mut run = PkgExtraction::new(&data, header, &entries, false);
    match run.step(true).unwrap() {
        ExtractStep::Write(w) => {
            assert_eq!(w.component.as_deref(), Some("A.pkg"));
            assert_eq!(w.permissions, None);
            assert_eq!(w.body, b"A");
        }
        other => panic!("{other:?}"),
    }
    match run.step(false).unwrap() {
        ExtractStep::WarnScripts(component) => assert_eq!(
            scripts_warning(&component),
            "'B.pkg' has no Payload — extracting files from Scripts instead \
             (non-standard .pkg; verify output looks correct)"
        ),
        other => panic!("{other:?}"),
    }
    assert!(matches!(run.step(false), Ok(ExtractStep::Cancelled)));
    match run.step(true).unwrap() {
        ExtractStep::Write(w) => {
            assert_eq!(w.component.as_deref(), Some("B.pkg"));
            assert_eq!((w.body.as_slice(), w.files_done), (b"B".as_slice(), 2));
        }
        other => panic!("{other:?}"),
    }
    assert!(matches!(run.step(true), Ok(ExtractStep::Finished)));
    let lines = list_lines(&data).unwrap();
    assert_eq!(lines.len(), 4);
    assert_eq!(lines[2], "== B.pkg/Scripts (Scripts) ==");
}

#[test]
fn broken_archive_stops_the_run() {
    let mut bytes = newc("a", 0o100644, b"A");
    bytes.extend_from_slice(b"xxxxxx");
    let data = single(&bytes, "application/octet-stream");
    assert!(matches!(plan_extraction(&data), Err(PkgError::Archive(_))));
    assert!(matches!(list_lines(&data), Err(PkgError::Archive(_))));
    let (header, entries) = open_package(&data).unwrap();
    let mut run = PkgExtraction::new(&data, header, &entries, false);
    assert!(matches!(run.step(true), Ok(ExtractStep::Write(_))));
    assert!(matches!(run.step(true), Err(PkgError::Archive(_))));
    assert!(matches!(run.step(true), Err(PkgError::Archive(_))));
}

#[test]
fn paths_are_made_safe() {
    for (raw, safe) in [
        ("./Applications/Game.app/x", Some("Applications/Game.app/x")),
        ("a//b/./c/", Some("a/b/c")),
        ("././a", Some("a")),
        ("a/..b/c..", Some("a/..b/c..")),
        ("", None),
        (".", None),
        ("./", None),
        ("./.", None),
        ("/etc/passwd", None),
        (".//etc/passwd", None),
        ("..", None),
        ("a/../b", None),
        ("a/..", None),
    ] {
        assert_eq!(sanitize_cpio_path(raw, false).as_deref(), safe, "{raw}");
        if let Some(path) = sanitize_cpio_path(raw, false) {
            assert_eq!(sanitize_cpio_path(&path, false), Some(path));
        }
    }
}

#[test]
fn unsafe_paths_of_windows_are_refused() {
    for (raw, safe) in [
        ("./Applications/Game.app", Some(r"Applications\Game.app")),
        (r"a\b/c", Some(r"a\b\c")),
        (r".\a\.\b", Some(r"a\b")),
        (r"..\x", None),
        (r"a\..\x", None),
        (r"\x", None),
        (r"\\server\share\x", None),
        (r"C:\x", None),
        ("c:x", None),
        ("a/C:x", None),
        (r".\", None),
    ] {
        assert_eq!(sanitize_cpio_path(raw, true).as_deref(), safe, "{raw}");
        if let Some(path) = sanitize_cpio_path(raw, true) {
            assert_eq!(sanitize_cpio_path(&path, true), Some(path));
        }
    }
    assert_eq!(sanitize_cpio_path(r"..\x", false).as_deref(), Some(r"..\x"));
    assert_eq!(sanitize_cpio_path("C:/x", false).as_deref(), Some("C:/x"));
}
