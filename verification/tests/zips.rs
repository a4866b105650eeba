use std::io::{Cursor, Write};

use zip::write::SimpleFileOptions;
use zip::{CompressionMethod, DateTime, ZipWriter};

use gogextract::messages::{mojo_message, unsafe_zip_warning};
use gogextract::mojo::{
    entry_step, list_lines, listing_lines, modified_text, plan_entry, scan_zip_counts, EntryStep,
    MojoError, ZipWorker,
};
use gogextract::run_control::CANCEL_CHECK_INTERVAL_BYTES;
use gogextract::unpack::COPY_BUFFER_SIZE;
use gogextract::zip_archive::{ZipEntryInfo, ZipTime};

fn sample() -> Vec<u8> {
    let mut zip = ZipWriter::new(Cursor::new(Vec::new()));
    let time = DateTime::from_date_and_time(2023, 4, 5, 6, 7, 8).unwrap();
    let options = SimpleFileOptions::default()
        .compression_method(CompressionMethod::Deflated)
        .last_modified_time(time);
    zip.add_directory("data/", options).unwrap();
    zip.start_file("data/game.bin", options.unix_permissions(0o755)).unwrap();
    zip.write_all(&[7u8; 1000]).unwrap();
    zip.start_file("data/../../evil", options).unwrap();
    zip.write_all(b"no").unwrap();
    zip.start_file("/abs", options).unwrap();
    zip.start_file("a/../b", options).unwrap();
    zip.finish().unwrap().into_inner()
}

fn behind_a_script() -> Vec<u8> {
    let mut data = b"#!/bin/sh\nexit 0\n".to_vec();
    data.extend(sample());
    data
}

#[test]
fn archives_are_listed() {
    for data in [sample(), behind_a_script()] {
        let lines = list_lines(&data).unwrap();
        assert_eq!(lines[0], format!("{:<10}  {:<19}  {}", "Size", "Modified", "Name"));
        assert_eq!(lines[1], "-".repeat(72));
        assert_eq!(lines[2], "0           2023-04-05 06:07:08  data/");
        assert_eq!(lines[3], "1000        2023-04-05 06:07:08  data/game.bin");
        assert_eq!(lines[7], "-".repeat(72));
        assert_eq!(lines[8], "4 file(s), 1002 bytes uncompressed");
        assert_eq!(lines.len(), 9);
    }
}

#[test]
fn counts_agree_with_the_listing() {
    let counts = scan_zip_counts(&behind_a_script()).unwrap();
    assert_eq!(counts.entry_count, 5);
    assert_eq!(counts.file_count, 4);
}

#[test]
fn empty_archive_is_listed() {
    let data = ZipWriter::new(Cursor::new(Vec::new())).finish().unwrap().into_inner();
    let lines = list_lines(&data).unwrap();
    assert_eq!(lines.len(), 4);
    assert_eq!(lines[3], "0 file(s), 0 bytes uncompressed");
}

#[test]
fn what_is_no_archive_is_refused() {
    let e = list_lines(b"no archive at all").unwrap_err();
    assert!(matches!(e, MojoError::Open(_)));
    assert!(mojo_message(&e).starts_with("Failed to open ZIP archive: "));
    assert!(matches!(scan_zip_counts(b""), Err(MojoError::Open(_))));
    assert!(matches!(entry_step(b"", 0, true, false), Err(MojoError::Worker(_))));
    assert!(matches!(entry_step(b"", 0, false, false), Ok(EntryStep::Stop(_))));
    assert_eq!(
        mojo_message(&MojoError::Worker("x".to_owned())),
        "ZIP archive init failed for worker: Failed to open ZIP archive for worker: x"
    );
    assert_eq!(
        mojo_message(&MojoError::Entry { index: 3, cause: "x".to_owned() }),
        "Failed to read ZIP entry #3: x"
    );
}

#[test]
fn entry_that_cannot_be_read_is_refused() {
    let mut data = sample();
    let at = data.windows(4).position(|w| w == b"PK\x03\x04").unwrap();
    data[at] = 0;
    assert!(matches!(list_lines(&data), Err(MojoError::Entry { index: 0, .. })));
    let counts = scan_zip_counts(&data).unwrap();
    assert_eq!((counts.entry_count, counts.file_count), (5, 4));
    assert!(matches!(
        entry_step(&sample(), 99, true, false),
        Err(MojoError::Entry { index: 99, .. })
    ));
}

#[test]
fn workers_know_what_to_do() {
    let data = sample();
    let mut worker = ZipWorker::open(&data);
    assert!(matches!(
        worker.step(0, true, false),
        Ok(EntryStep::MakeDirectory { path }) if path == "data/"
    ));
    match worker.step(1, true, false).unwrap() {
        EntryStep::WriteFile { path, unix_mode, shown } => {
            assert_eq!(path, "data/game.bin");
            assert_eq!(unix_mode, Some(0o100755));
            assert_eq!(shown.as_deref(), Some("game.bin"));
        }
        other => panic!("{other:?}"),
    }
    match worker.step(2, true, false).unwrap() {
        EntryStep::Skip { name } => assert_eq!(
            unsafe_zip_warning(&name),
            "Skipping unsafe path in ZIP: \"data/../../evil\""
        ),
        other => panic!("{other:?}"),
    }
    assert!(matches!(worker.step(3, true, false), Ok(EntryStep::Skip { name }) if name == "/abs"));
    assert!(matches!(
        worker.step(4, true, false),
        Ok(EntryStep::WriteFile { path, .. }) if path == "a/../b"
    ));
    assert!(matches!(worker.step(1, false, false), Ok(EntryStep::Stop(_))));
}

/// An archive with one file, and what the file holds.
fn single(method: CompressionMethod, name: &str, len: usize) -> (Vec<u8>, Vec<u8>) {
    let content: Vec<u8> = (0..len).map(|i| (i * i / 7 % 251) as u8).collect();
    let mut zip = ZipWriter::new(Cursor::new(Vec::new()));
    let options = SimpleFileOptions::default().compression_method(method);
    zip.start_file(name, options).unwrap();
    zip.write_all(&content).unwrap();
    (zip.finish().unwrap().into_inner(), content)
}

fn unpacked(data: &[u8], index: usize) -> Result<Vec<Vec<u8>>, MojoError> {
    let mut worker = ZipWorker::open(data);
    let mut unpacking = worker.unpack(index)?;
    let mut parts = Vec::new();
    while let Some(part) = unpacking.next_part(true)? {
        parts.push(part);
    }
    Ok(parts)
}

#[test]
fn parts_are_the_entry() {
    for method in [CompressionMethod::Deflated, CompressionMethod::Stored] {
        for len in [0, 1, 65536, 65537, 300_000] {
            let (data, content) = single(method, "f", len);
            let parts = unpacked(&data, 0).unwrap();
            assert!(parts.iter().all(|p| !p.is_empty() && p.len() <= COPY_BUFFER_SIZE));
            assert_eq!(parts.concat(), content);
        }
    }
    assert_eq!(unpacked(&behind_a_script(), 1).unwrap().concat(), vec![7u8; 1000]);
}

#[test]
fn damaged_entry_is_not_unpacked() {
    let (mut data, content) = single(CompressionMethod::Stored, "d/f", 1000);
    let at = data.windows(content.len()).position(|w| w == content).unwrap();
    data[at + 500] ^= 1;
    let e = unpacked(&data, 0).unwrap_err();
    assert!(matches!(&e, MojoError::Unpack { name, .. } if name == "d/f"));
    assert_eq!(mojo_message(&e), "Failed to write d/f: Invalid checksum");

    let (mut data, _) = single(CompressionMethod::Deflated, "f", 300_000);
    let at = data.windows(4).position(|w| w == b"PK\x01\x02").unwrap();
    for byte in &mut data[100..at] {
        *byte = 0xff;
    }
    assert!(matches!(unpacked(&data, 0), Err(MojoError::Unpack { .. })));
}

#[test]
fn entry_that_is_not_there_is_not_unpacked() {
    let (data, _) = single(CompressionMethod::Stored, "f", 3);
    assert!(matches!(unpacked(&data, 1), Err(MojoError::Entry { index: 1, .. })));
    assert!(matches!(unpacked(b"no archive", 0), Err(MojoError::Worker(_))));
}

#[test]
fn unwanted_unpacking_is_stopped() {
    let (data, content) = single(CompressionMethod::Stored, "f", 1_000_000);
    let mut worker = ZipWorker::open(&data);
    let mut unpacking = worker.unpack(0).unwrap();
    let mut given = Vec::new();
    let e = loop {
        match unpacking.next_part(false) {
            Ok(Some(part)) => given.extend(part),
            Ok(None) => panic!("not stopped"),
            Err(e) => break e,
        }
    };
    assert_eq!(mojo_message(&e), "Failed to write f: cancelled");
    assert!(given.len() >= CANCEL_CHECK_INTERVAL_BYTES);
    assert!(given.len() < CANCEL_CHECK_INTERVAL_BYTES + COPY_BUFFER_SIZE);
    while let Some(part) = unpacking.next_part(true).unwrap() {
        given.extend(part);
    }
    assert_eq!(given, content);
}

#[test]
fn colons_and_backslashes_are_no_reason_to_skip() {
    for name in ["Data/Act 1: Intro.txt", "ab:c", r"a\b", r"a\..\b"] {
        let (data, content) = single(CompressionMethod::Deflated, name, 10);
        match entry_step(&data, 0, true, false).unwrap() {
            EntryStep::WriteFile { path, .. } => assert_eq!(path, name),
            other => panic!("{other:?}"),
        }
        assert_eq!(unpacked(&data, 0).unwrap().concat(), content);
    }
    for name in [r"../a\b", r"/a\b", "x/../../a:b"] {
        let (data, _) = single(CompressionMethod::Deflated, name, 10);
        assert!(matches!(entry_step(&data, 0, true, false), Ok(EntryStep::Skip { .. })));
    }
}

fn info(name: &str, size: u64) -> ZipEntryInfo {
    ZipEntryInfo {
        name: name.to_owned(),
        size,
        modified: None,
        unix_mode: None,
        is_dir: name.ends_with('/') || name.ends_with('\\'),
        enclosed: Some(name.to_owned()),
    }
}

#[test]
fn listing_counts_only_files() {
    let lines = listing_lines(&vec![info("d/", 9), info("a", 1), info("b", 12345678901)]);
    assert_eq!(lines[2], "9           unknown              d/");
    assert_eq!(lines[4], "12345678901  unknown              b");
    assert_eq!(lines[6], "2 file(s), 12345678902 bytes uncompressed");
    let lines = listing_lines(&vec![info("a", u64::MAX), info("b", 2)]);
    assert_eq!(lines[5], "2 file(s), 1 bytes uncompressed");
}

#[test]
fn times_have_fixed_width() {
    let time = ZipTime { year: 1980, month: 1, day: 2, hour: 3, minute: 4, second: 58 };
    assert_eq!(modified_text(Some(time)), "1980-01-02 03:04:58");
    assert_eq!(modified_text(None).len(), 19);
}

#[test]
fn plans_follow_the_entry() {
    assert!(matches!(plan_entry(info("d\\", 0), false), EntryStep::MakeDirectory { .. }));
    let mut bad = info("x", 0);
    bad.enclosed = None;
    assert!(matches!(plan_entry(bad, false), EntryStep::Skip { .. }));
    for (windows, name) in [(false, r"a\b.txt"), (true, "b.txt")] {
        match plan_entry(info(r"a\b.txt", 0), windows) {
            EntryStep::WriteFile { shown, .. } => assert_eq!(shown.as_deref(), Some(name)),
            other => panic!("{other:?}"),
        }
    }
    match plan_entry(info("a/..", 0), false) {
        EntryStep::WriteFile { shown, .. } => assert_eq!(shown, None),
        other => panic!("{other:?}"),
    }
}
