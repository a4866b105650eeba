use gogextract::cpio::{
    count_cpio_files, next_cpio_file, read_cpio_entry, read_cpio_entry_newc, read_cpio_entry_odc,
    read_exact_or_eof, skip_padding_newc, CpioError, OdcField,
};
use gogextract::messages::cpio_message;
use gogextract::reader::ByteReader;

fn pad(out: &mut Vec<u8>, len: usize) {
    while out.len() % 4 != len % 4 {
        out.push(0);
    }
}

fn newc(name: &str, mode: u32, body: &[u8]) -> Vec<u8> {
    let mut out = b"070701".to_vec();
    let fields = [
        7u32, mode, 501, 20, 1, 0x5f00_0000, body.len() as u32, 1, 2, 0, 0,
        name.len() as u32 + 1, 0,
    ];
    for f in fields {
        out.extend_from_slice(format!("{f:08x}").as_bytes());
    }
    out.extend_from_slice(name.as_bytes());
    out.push(0);
    pad(&mut out, 0);
    out.extend_from_slice(body);
    pad(&mut out, 0);
    out
}

fn odc(name: &str, mode: u32, body: &[u8]) -> Vec<u8> {
    let mut out = b"070707".to_vec();
    for f in [1u32, 2, mode, 0, 0, 1, 0] {
        out.extend_from_slice(format!("{f:06o}").as_bytes());
    }
    out.extend_from_slice(format!("{:011o}", 1234).as_bytes());
    out.extend_from_slice(format!("{:06o}", name.len() + 1).as_bytes());
    out.extend_from_slice(format!("{:011o}", body.len()).as_bytes());
    out.extend_from_slice(name.as_bytes());
    out.push(0);
    out.extend_from_slice(body);
    out
}

#[test]
fn newc_entry_is_read_back() {
    let bytes = newc("./dir/file.txt", 0o100644, b"hello");
    let mut r = ByteReader::new(&bytes);
    let (entry, body) = read_cpio_entry(&mut r).unwrap().unwrap();
    assert_eq!(entry.name, "./dir/file.txt");
    assert_eq!(entry.mode, 0o100644);
    assert_eq!(entry.file_size, 5);
    assert_eq!(body, b"hello");
    assert_eq!(r.remaining(), 0);
    assert!(read_cpio_entry(&mut r).unwrap().is_none());
}

#[test]
fn odc_entry_is_read_back() {
    let mut bytes = odc("Scripts~/postinstall", 0o100755, b"#!/bin/sh\n");
    bytes.extend_from_slice(b"rest");
    let mut r = ByteReader::new(&bytes);
    let (entry, body) = read_cpio_entry(&mut r).unwrap().unwrap();
    assert_eq!(entry.name, "Scripts~/postinstall");
    assert_eq!(entry.mode, 0o100755);
    assert_eq!(entry.file_size, 10);
    assert_eq!(body, b"#!/bin/sh\n");
    assert_eq!(r.remaining(), 4);
}

#[test]
fn trailer_ends_an_archive() {
    for trailer in [newc("TRAILER!!!", 0, b""), odc("TRAILER!!!", 0, b"")] {
        let mut bytes = trailer;
        bytes.extend_from_slice(&newc("after", 0o100644, b"x"));
        let mut r = ByteReader::new(&bytes);
        assert!(read_cpio_entry(&mut r).unwrap().is_none());
        assert_eq!(count_cpio_files(&bytes).unwrap(), 0);
    }
}

#[test]
fn trailer_leaves_what_follows_it() {
    for trailer in [newc("TRAILER!!!", 0, b""), odc("TRAILER!!!", 0, b"")] {
        let mut bytes = trailer;
        bytes.extend_from_slice(b"ZZ");
        let mut r = ByteReader::new(&bytes);
        assert!(read_cpio_entry(&mut r).unwrap().is_none());
        assert_eq!(read_exact_or_eof(&mut r, 2).unwrap().unwrap(), b"ZZ");
        assert_eq!(r.remaining(), 0);
    }
}

#[test]
fn variants_follow_each_other() {
    let mut bytes = newc("./a", 0o100644, b"one");
    bytes.extend_from_slice(&odc("./b", 0o100755, b"three"));
    bytes.extend_from_slice(&newc("TRAILER!!!", 0, b""));
    bytes.extend_from_slice(b"ZZ");
    let mut r = ByteReader::new(&bytes);
    let (entry, body) = read_cpio_entry(&mut r).unwrap().unwrap();
    assert_eq!((entry.name.as_str(), body.as_slice()), ("./a", &b"one"[..]));
    let (entry, body) = read_cpio_entry(&mut r).unwrap().unwrap();
    assert_eq!((entry.name.as_str(), body.as_slice()), ("./b", &b"three"[..]));
    assert_eq!(entry.mode, 0o100755);
    assert!(read_cpio_entry(&mut r).unwrap().is_none());
    assert_eq!(read_exact_or_eof(&mut r, 2).unwrap().unwrap(), b"ZZ");
}

#[test]
fn headers_that_are_not_text_say_why() {
    let mut bytes = newc("n", 0o100644, b"");
    bytes[6] = 0xff;
    let mut r = ByteReader::new(&bytes);
    assert_eq!(
        cpio_message(&read_cpio_entry(&mut r).unwrap_err()),
        "Non-ASCII cpio header field: invalid utf-8 sequence of 1 bytes from index 0"
    );
    let mut bytes = odc("n", 0o100644, b"");
    bytes[8] = 0xff;
    let mut r = ByteReader::new(&bytes);
    let message = cpio_message(&read_cpio_entry(&mut r).unwrap_err());
    assert_eq!(
        message,
        "Non-ASCII cpio header field 'dev': invalid utf-8 sequence of 1 bytes from index 2"
    );
}

#[test]
fn empty_stream_has_no_entry() {
    let mut r = ByteReader::new(b"");
    assert!(read_cpio_entry(&mut r).unwrap().is_none());
    assert_eq!(count_cpio_files(b"").unwrap(), 0);
}

#[test]
fn directories_are_passed_over() {
    let mut bytes = newc("./d", 0o040755, b"");
    bytes.extend_from_slice(&newc("./d/a", 0o100644, b"a"));
    bytes.extend_from_slice(&newc("./d/e", 0o040755, b""));
    bytes.extend_from_slice(&odc("./d/b", 0o120777, b"a"));
    bytes.extend_from_slice(&newc("TRAILER!!!", 0, b""));
    assert_eq!(count_cpio_files(&bytes).unwrap(), 2);
    let mut r = ByteReader::new(&bytes);
    assert_eq!(next_cpio_file(&mut r).unwrap().unwrap().0.name, "./d/a");
    assert_eq!(next_cpio_file(&mut r).unwrap().unwrap().0.name, "./d/b");
    assert!(next_cpio_file(&mut r).unwrap().is_none());
}

#[test]
fn name_loses_its_closing_nuls() {
    let mut bytes = odc("name\0\0", 0o100644, b"");
    bytes.push(9);
    let mut r = ByteReader::new(&bytes);
    assert_eq!(read_cpio_entry(&mut r).unwrap().unwrap().0.name, "name");
}

#[test]
fn name_that_is_not_utf8_is_replaced() {
    let mut bytes = newc("abc", 0o100644, b"");
    let name_at = bytes.windows(3).position(|w| w == b"abc").unwrap();
    bytes[name_at + 1] = 0xff;
    let mut r = ByteReader::new(&bytes);
    assert_eq!(read_cpio_entry(&mut r).unwrap().unwrap().0.name, "a\u{fffd}c");
}

#[test]
fn odc_fields_may_be_padded_with_spaces() {
    let mut bytes = odc("f", 0o100644, b"z");
    bytes[6..12].copy_from_slice(b"     1");
    let mut r = ByteReader::new(&bytes);
    assert_eq!(read_cpio_entry(&mut r).unwrap().unwrap().1, b"z");
}

#[test]
fn spaces_for_zeros_change_nothing() {
    let zeros = odc("name", 0o100644, b"body");
    let mut spaces = zeros.clone();
    let mut at = 6;
    for width in [6, 6, 6, 6, 6, 6, 6, 11, 6, 11] {
        let mut i = at;
        while i + 1 < at + width && spaces[i] == b'0' {
            spaces[i] = b' ';
            i += 1;
        }
        at += width;
    }
    assert_ne!(zeros, spaces);
    let mut a = ByteReader::new(&zeros);
    let mut b = ByteReader::new(&spaces);
    let (x, body_x) = read_cpio_entry(&mut a).unwrap().unwrap();
    let (y, body_y) = read_cpio_entry(&mut b).unwrap().unwrap();
    assert_eq!((x.name, x.mode, x.file_size, body_x), (y.name, y.mode, y.file_size, body_y));
    assert_eq!(a.remaining(), b.remaining());
}

#[test]
fn unknown_variant_is_refused() {
    let mut r = ByteReader::new(b"070702rest");
    let e = read_cpio_entry(&mut r).unwrap_err();
    assert!(matches!(&e, CpioError::UnsupportedVariant(m) if m == b"070702"));
    assert_eq!(
        cpio_message(&e),
        "Unsupported cpio variant (expected newc magic '070701' or odc magic '070707', got \"070702\")"
    );
}

#[test]
fn truncated_archives_are_refused() {
    let whole = newc("name", 0o100644, b"body!");
    let cut = |n: usize| {
        let mut r = ByteReader::new(&whole[..n]);
        read_cpio_entry(&mut r).unwrap_err()
    };
    assert!(matches!(cut(3), CpioError::TruncatedStream));
    assert!(matches!(cut(6), CpioError::TruncatedHeader));
    assert!(matches!(cut(109), CpioError::TruncatedHeader));
    assert!(matches!(cut(112), CpioError::TruncatedName));
    assert!(matches!(cut(115), CpioError::TruncatedPadding));
    assert!(matches!(cut(118), CpioError::TruncatedBody));
    assert!(matches!(cut(121), CpioError::TruncatedPadding));
    assert_eq!(whole.len(), 124);
}

#[test]
fn truncated_odc_archives_are_refused() {
    let whole = odc("name", 0o100644, b"body");
    let cut = |n: usize| {
        let mut r = ByteReader::new(&whole[..n]);
        read_cpio_entry(&mut r).unwrap_err()
    };
    assert!(matches!(cut(8), CpioError::TruncatedField(OdcField::Dev)));
    assert!(matches!(cut(58), CpioError::TruncatedField(OdcField::Mtime)));
    assert!(matches!(cut(78), CpioError::TruncatedName));
    assert!(matches!(cut(whole.len() - 1), CpioError::TruncatedBody));
    assert_eq!(
        cpio_message(&cut(8)),
        "Truncated cpio header field 'dev': failed to fill whole buffer"
    );
}

#[test]
fn malformed_headers_are_refused() {
    let mut bytes = newc("n", 0o100644, b"");
    bytes[6] = b'g';
    let mut r = ByteReader::new(&bytes);
    assert!(matches!(read_cpio_entry(&mut r), Err(CpioError::MalformedHeader)));
    bytes[6] = 0xff;
    let mut r = ByteReader::new(&bytes);
    assert!(matches!(read_cpio_entry(&mut r), Err(CpioError::HeaderNotText(_))));

    let mut bytes = odc("n", 0o100644, b"");
    bytes[6] = b'8';
    let mut r = ByteReader::new(&bytes);
    let e = read_cpio_entry(&mut r).unwrap_err();
    assert!(matches!(&e, CpioError::MalformedField(OdcField::Dev, s) if s == "800001"));
    assert_eq!(
        cpio_message(&e),
        "Malformed cpio header field 'dev': \"800001\": invalid digit found in string"
    );
    bytes[6] = 0xff;
    let mut r = ByteReader::new(&bytes);
    assert!(matches!(
        read_cpio_entry(&mut r),
        Err(CpioError::FieldNotText(OdcField::Dev, _))
    ));
}

#[test]
fn variants_can_be_read_behind_their_magic() {
    let n = newc("n", 0o100600, b"12");
    let mut r = ByteReader::new(&n[6..]);
    assert_eq!(read_cpio_entry_newc(&mut r).unwrap().unwrap().1, b"12");
    let o = odc("o", 0o100600, b"345");
    let mut r = ByteReader::new(&o[6..]);
    assert_eq!(read_cpio_entry_odc(&mut r).unwrap().unwrap().1, b"345");
}

#[test]
fn padding_goes_to_a_multiple_of_four() {
    let bytes = [1u8, 2, 3, 4, 5];
    for (len, left) in [(0u64, 5usize), (1, 2), (2, 3), (3, 4), (4, 5)] {
        let mut r = ByteReader::new(&bytes);
        skip_padding_newc(&mut r, len).unwrap();
        assert_eq!(r.remaining(), left);
    }
    let mut r = ByteReader::new(&bytes[..2]);
    assert!(matches!(
        skip_padding_newc(&mut r, 1),
        Err(CpioError::TruncatedPadding)
    ));
}

#[test]
fn reading_tells_the_end_from_a_cut() {
    let mut r = ByteReader::new(b"abcdef");
    assert_eq!(read_exact_or_eof(&mut r, 6).unwrap().unwrap(), b"abcdef");
    assert!(read_exact_or_eof(&mut r, 6).unwrap().is_none());
    let mut r = ByteReader::new(b"abc");
    assert!(matches!(
        read_exact_or_eof(&mut r, 6),
        Err(CpioError::TruncatedStream)
    ));
}

#[test]
fn error_stops_the_count() {
    let mut bytes = newc("a", 0o100644, b"a");
    bytes.extend_from_slice(b"07");
    assert!(matches!(count_cpio_files(&bytes), Err(CpioError::TruncatedStream)));
}
