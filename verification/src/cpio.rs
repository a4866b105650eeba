//! cpio archives, in the `newc` and the `odc` variant.
//!
//! An archive is a run of entries, each a header of numbers in text, a name and a body. It
//! stops at an entry called `TRAILER!!!`, or where the bytes stop.

use vstd::prelude::*;
use vstd::utf8::{decode_utf8, valid_utf8};

use crate::numbers::{number_in, read_number};
use crate::reader::ByteReader;
use crate::text::{chars_of, same_bytes, same_text, skip_trailing, string_of, trim, trimmed, without_trailing};
use crate::utf8::{lossy_text, utf8_lossy, utf8_problem, utf8_text};

verus! {

// ---------------------------------------------------------------------------
// Entries and errors
// ---------------------------------------------------------------------------

/// What the header of an entry says.
#[derive(Debug)]
pub struct CpioEntry {
    pub name: String,
    /// File type and permissions.
    pub mode: u32,
    pub file_size: u64,
}

/// What an entry holds.
pub ghost struct CpioEntryView {
    pub name: Seq<char>,
    pub mode: u32,
    pub file_size: u64,
}

impl View for CpioEntry {
    type V = CpioEntryView;

    open spec fn view(&self) -> CpioEntryView {
        CpioEntryView { name: self.name@, mode: self.mode, file_size: self.file_size }
    }
}

/// The fields of an `odc` header.
#[derive(Debug, Clone, Copy, PartialEq, Eq, Structural)]
pub enum OdcField {
    Dev,
    Ino,
    Mode,
    Uid,
    Gid,
    Nlink,
    Rdev,
    Mtime,
    NameSize,
    FileSize,
}

/// Why an archive cannot be read.
#[derive(Debug)]
pub enum CpioError {
    /// The bytes stop within the magic number.
    TruncatedStream,
    /// The magic number, given here, is that of neither variant.
    UnsupportedVariant(Vec<u8>),
    /// The bytes stop within a `newc` header.
    TruncatedHeader,
    /// A field of a `newc` header is not text, for the reason given.
    HeaderNotText(String),
    /// A field of a `newc` header is not a number.
    MalformedHeader,
    /// The bytes stop within a field of an `odc` header.
    TruncatedField(OdcField),
    /// A field of an `odc` header is not text, for the reason given.
    FieldNotText(OdcField, String),
    /// A field of an `odc` header, given here, is not a number.
    MalformedField(OdcField, String),
    /// The bytes stop within a name.
    TruncatedName,
    /// The bytes stop within a body.
    TruncatedBody,
    /// The bytes stop within the bytes that fill up to a multiple of four.
    TruncatedPadding,
}

/// What an error holds.
pub ghost enum CpioErrorView {
    TruncatedStream,
    UnsupportedVariant(Seq<u8>),
    TruncatedHeader,
    HeaderNotText(Seq<char>),
    MalformedHeader,
    TruncatedField(OdcField),
    FieldNotText(OdcField, Seq<char>),
    MalformedField(OdcField, Seq<char>),
    TruncatedName,
    TruncatedBody,
    TruncatedPadding,
}

impl View for CpioError {
    type V = CpioErrorView;

    open spec fn view(&self) -> CpioErrorView {
        match self {
            CpioError::TruncatedStream => CpioErrorView::TruncatedStream,
            CpioError::UnsupportedVariant(magic) => CpioErrorView::UnsupportedVariant(magic@),
            CpioError::TruncatedHeader => CpioErrorView::TruncatedHeader,
            CpioError::HeaderNotText(cause) => CpioErrorView::HeaderNotText(cause@),
            CpioError::MalformedHeader => CpioErrorView::MalformedHeader,
            CpioError::TruncatedField(field) => CpioErrorView::TruncatedField(*field),
            CpioError::FieldNotText(field, cause) => CpioErrorView::FieldNotText(*field, cause@),
            CpioError::MalformedField(field, text) => CpioErrorView::MalformedField(*field, text@),
            CpioError::TruncatedName => CpioErrorView::TruncatedName,
            CpioError::TruncatedBody => CpioErrorView::TruncatedBody,
            CpioError::TruncatedPadding => CpioErrorView::TruncatedPadding,
        }
    }
}

/// An entry, its body, and the bytes after it.
pub ghost struct Parsed {
    pub entry: CpioEntryView,
    pub body: Seq<u8>,
    pub rest: Seq<u8>,
}

/// What stands at a place in an archive.
pub ghost enum Found {
    /// An entry.
    Entry(Parsed),
    /// The end of the archive, and the bytes after it.
    End { rest: Seq<u8> },
}

// ---------------------------------------------------------------------------
// What the bytes mean
// ---------------------------------------------------------------------------

/// The magic number of `newc`.
pub open spec fn newc_magic() -> Seq<u8> {
    seq![0x30u8, 0x37, 0x30, 0x37, 0x30, 0x31]
}

/// The magic number of `odc`.
pub open spec fn odc_magic() -> Seq<u8> {
    seq![0x30u8, 0x37, 0x30, 0x37, 0x30, 0x37]
}

/// The name in `bytes`: their text without the NULs at its end.
pub open spec fn name_in(bytes: Seq<u8>) -> Seq<char> {
    without_trailing(lossy_text(bytes), '\0')
}

/// How many bytes fill `len` up to a multiple of four.
pub open spec fn padding(len: int) -> int {
    (4 - len % 4) % 4
}

/// The number in the eight bytes of a `newc` field.
pub open spec fn newc_field(bytes: Seq<u8>) -> Result<u32, CpioErrorView> {
    if !valid_utf8(bytes) {
        Err(CpioErrorView::HeaderNotText(utf8_problem(bytes)))
    } else {
        match number_in(decode_utf8(bytes), 16, u32::MAX as nat) {
            Some(n) => Ok(n as u32),
            None => Err(CpioErrorView::MalformedHeader),
        }
    }
}

/// The first `n` fields of a `newc` header, or the error of the first one that has one.
pub open spec fn newc_fields(s: Seq<u8>, n: nat) -> Result<Seq<u32>, CpioErrorView>
    decreases n,
{
    if n == 0 {
        Ok(Seq::empty())
    } else {
        match newc_fields(s, (n - 1) as nat) {
            Err(e) => Err(e),
            Ok(fields) => if s.len() < 8 * n {
                Err(CpioErrorView::TruncatedHeader)
            } else {
                match newc_field(s.subrange(8 * (n - 1), 8 * n as int)) {
                    Err(e) => Err(e),
                    Ok(value) => Ok(fields.push(value)),
                }
            },
        }
    }
}

/// The entry of a `newc` archive whose bytes after the magic number are `s`: thirteen fields,
/// the name filled up with the header to a multiple of four, and the body filled up likewise.
pub open spec fn newc_entry(s: Seq<u8>) -> Result<Found, CpioErrorView> {
    match newc_fields(s, 13) {
        Err(e) => Err(e),
        Ok(fields) => {
            let mode = fields[1];
            let file_size = fields[6] as int;
            let name_size = fields[11] as int;
            let name_end = 104 + name_size;
            let body_start = name_end + padding(110 + name_size);
            let body_end = body_start + file_size;
            let next = body_end + padding(file_size);
            let name = name_in(s.subrange(104, name_end));
            if s.len() < name_end {
                Err(CpioErrorView::TruncatedName)
            } else if s.len() < body_start {
                Err(CpioErrorView::TruncatedPadding)
            } else if name == "TRAILER!!!"@ {
                Ok(Found::End { rest: s.skip(body_start) })
            } else if s.len() < body_end {
                Err(CpioErrorView::TruncatedBody)
            } else if s.len() < next {
                Err(CpioErrorView::TruncatedPadding)
            } else {
                Ok(
                    Found::Entry(
                        Parsed {
                            entry: CpioEntryView { name, mode, file_size: file_size as u64 },
                            body: s.subrange(body_start, body_end),
                            rest: s.skip(next),
                        },
                    ),
                )
            }
        },
    }
}

/// How many bytes an `odc` field has.
pub open spec fn odc_width(field: OdcField) -> int {
    match field {
        OdcField::Mtime | OdcField::FileSize => 11,
        _ => 6,
    }
}

/// Where an `odc` field starts, counted from the end of the magic number.
pub open spec fn odc_start(field: OdcField) -> int {
    match field {
        OdcField::Dev => 0,
        OdcField::Ino => 6,
        OdcField::Mode => 12,
        OdcField::Uid => 18,
        OdcField::Gid => 24,
        OdcField::Nlink => 30,
        OdcField::Rdev => 36,
        OdcField::Mtime => 42,
        OdcField::NameSize => 53,
        OdcField::FileSize => 59,
    }
}

/// The octal number in an `odc` field with which `rest` begins, with white space around it
/// allowed.
pub open spec fn octal_field(rest: Seq<u8>, field: OdcField) -> Result<u64, CpioErrorView> {
    let bytes = rest.take(odc_width(field));
    if rest.len() < odc_width(field) {
        Err(CpioErrorView::TruncatedField(field))
    } else if !valid_utf8(bytes) {
        Err(CpioErrorView::FieldNotText(field, utf8_problem(bytes)))
    } else {
        match number_in(trimmed(decode_utf8(bytes)), 8, u64::MAX as nat) {
            Some(n) => Ok(n as u64),
            None => Err(CpioErrorView::MalformedField(field, decode_utf8(bytes))),
        }
    }
}

/// The number in a field of the `odc` header with which `s` begins.
pub open spec fn odc_field(s: Seq<u8>, field: OdcField) -> Result<u64, CpioErrorView> {
    if s.len() < odc_start(field) {
        Err(CpioErrorView::TruncatedField(field))
    } else {
        octal_field(s.skip(odc_start(field)), field)
    }
}

/// Where field number `i` of an `odc` header starts, and where the header ends.
pub open spec fn odc_header_at(i: int) -> int {
    if i < 10 {
        odc_start(odc_fields()[i])
    } else {
        70
    }
}

/// The fields of an `odc` header, in order.
pub open spec fn odc_fields() -> Seq<OdcField> {
    seq![
        OdcField::Dev,
        OdcField::Ino,
        OdcField::Mode,
        OdcField::Uid,
        OdcField::Gid,
        OdcField::Nlink,
        OdcField::Rdev,
        OdcField::Mtime,
        OdcField::NameSize,
        OdcField::FileSize,
    ]
}

/// The error of the first of `fields` that has one.
pub open spec fn odc_error(s: Seq<u8>, fields: Seq<OdcField>) -> Option<CpioErrorView>
    decreases fields.len(),
{
    if fields.len() == 0 {
        None
    } else {
        match odc_field(s, fields[0]) {
            Err(e) => Some(e),
            Ok(_) => odc_error(s, fields.drop_first()),
        }
    }
}

/// The entry of an `odc` archive whose bytes after the magic number are `s`: ten octal fields,
/// the name and the body, with nothing filled up.
pub open spec fn odc_entry(s: Seq<u8>) -> Result<Found, CpioErrorView> {
    match odc_error(s, odc_fields()) {
        Some(e) => Err(e),
        None => {
            let mode = odc_field(s, OdcField::Mode)->Ok_0;
            let name_end = 70 + odc_field(s, OdcField::NameSize)->Ok_0;
            let file_size = odc_field(s, OdcField::FileSize)->Ok_0;
            let name = name_in(s.subrange(70, name_end));
            let body_end = name_end + file_size;
            if s.len() < name_end {
                Err(CpioErrorView::TruncatedName)
            } else if name == "TRAILER!!!"@ {
                Ok(Found::End { rest: s.skip(name_end) })
            } else if s.len() < body_end {
                Err(CpioErrorView::TruncatedBody)
            } else {
                Ok(
                    Found::Entry(
                        Parsed {
                            entry: CpioEntryView { name, mode: mode as u32, file_size },
                            body: s.subrange(name_end, body_end),
                            rest: s.skip(body_end),
                        },
                    ),
                )
            }
        },
    }
}

/// The next entry of an archive whose bytes left are `s`.
pub open spec fn cpio_entry(s: Seq<u8>) -> Result<Found, CpioErrorView> {
    if s.len() == 0 {
        Ok(Found::End { rest: s })
    } else if s.len() < 6 {
        Err(CpioErrorView::TruncatedStream)
    } else if s.take(6) == newc_magic() {
        newc_entry(s.skip(6))
    } else if s.take(6) == odc_magic() {
        odc_entry(s.skip(6))
    } else {
        Err(CpioErrorView::UnsupportedVariant(s.take(6)))
    }
}

/// The file type in `mode` is that of a directory.
pub open spec fn is_directory(mode: u32) -> bool {
    mode & 0o170000 == 0o040000
}

/// Every entry has bytes of its own, and leaves those behind it.
pub proof fn lemma_entry_takes_bytes(s: Seq<u8>)
    ensures
        cpio_entry(s) matches Ok(Found::Entry(p)) ==> p.rest.len() < s.len() && p.rest == s.skip(
            s.len() - p.rest.len(),
        ),
{
    if let Ok(Found::Entry(p)) = cpio_entry(s) {
        assert(p.rest =~= s.skip(s.len() - p.rest.len()));
    }
}

/// The next entry that is not a directory, in an archive whose bytes left are `s`.
pub open spec fn cpio_file(s: Seq<u8>) -> Result<Found, CpioErrorView>
    decreases s.len(),
{
    match cpio_entry(s) {
        Ok(Found::Entry(p)) if is_directory(p.entry.mode) => {
            proof {
                lemma_entry_takes_bytes(s);
            }
            cpio_file(p.rest)
        },
        other => other,
    }
}

/// Every file has bytes of its own, and leaves those behind it.
pub proof fn lemma_file_takes_bytes(s: Seq<u8>)
    ensures
        cpio_file(s) matches Ok(Found::Entry(p)) ==> p.rest.len() < s.len() && p.rest == s.skip(
            s.len() - p.rest.len(),
        ),
    decreases s.len(),
{
    lemma_entry_takes_bytes(s);
    match cpio_entry(s) {
        Ok(Found::Entry(p)) if is_directory(p.entry.mode) => {
            lemma_file_takes_bytes(p.rest);
            if let Ok(Found::Entry(file)) = cpio_file(s) {
                assert(file.rest =~= s.skip(s.len() - file.rest.len()));
            }
        },
        _ => {},
    }
}

/// The files of an archive, each with its body, and the error that stops it, if one does.
pub ghost struct FileRun {
    pub files: Seq<(CpioEntryView, Seq<u8>)>,
    pub error: Option<CpioErrorView>,
}

/// The files in an archive whose bytes left are `s`.
pub open spec fn cpio_files(s: Seq<u8>) -> FileRun
    decreases s.len(),
{
    match cpio_file(s) {
        Ok(Found::End { .. }) => FileRun { files: Seq::empty(), error: None },
        Err(e) => FileRun { files: Seq::empty(), error: Some(e) },
        Ok(Found::Entry(p)) => {
            proof {
                lemma_file_takes_bytes(s);
            }
            let after = cpio_files(p.rest);
            FileRun { files: seq![(p.entry, p.body)] + after.files, error: after.error }
        },
    }
}

/// What reading an entry hands back, against what the bytes mean.
pub open spec fn entry_read(
    meaning: Result<Found, CpioErrorView>,
    result: Result<Option<(CpioEntry, Vec<u8>)>, CpioError>,
    rest: Seq<u8>,
) -> bool {
    match result {
        Ok(Some((entry, body))) => meaning == Ok::<Found, CpioErrorView>(
            Found::Entry(Parsed { entry: entry@, body: body@, rest }),
        ),
        Ok(None) => meaning == Ok::<Found, CpioErrorView>(Found::End { rest }),
        Err(e) => meaning == Err::<Found, CpioErrorView>(e@),
    }
}

// ---------------------------------------------------------------------------
// Reading
// ---------------------------------------------------------------------------

/// Reads `len` bytes, or says that none are left. It is an error if some are left but fewer.
pub fn read_exact_or_eof(r: &mut ByteReader<'_>, len: u64) -> (read: Result<
    Option<Vec<u8>>,
    CpioError,
>)
    ensures
        match read {
            Ok(Some(bytes)) => {
                &&& len == 0 || old(r)@.len() > 0
                &&& len <= old(r)@.len()
                &&& bytes@ == old(r)@.take(len as int)
                &&& final(r)@ == old(r)@.skip(len as int)
            },
            Ok(None) => len > 0 && old(r)@.len() == 0 && final(r)@ == old(r)@,
            Err(e) => 0 < old(r)@.len() < len && e is TruncatedStream,
        },
{
    match r.read_exact(len) {
        Some(bytes) => Ok(Some(bytes)),
        None => {
            if r.remaining() == 0 {
                Ok(None)
            } else {
                Err(CpioError::TruncatedStream)
            }
        },
    }
}

/// Skips the bytes that fill `len_so_far` up to a multiple of four.
pub fn skip_padding_newc(r: &mut ByteReader<'_>, len_so_far: u64) -> (skipped: Result<
    (),
    CpioError,
>)
    ensures
        match skipped {
            Ok(()) => {
                &&& padding(len_so_far as int) <= old(r)@.len()
                &&& final(r)@ == old(r)@.skip(padding(len_so_far as int))
            },
            Err(e) => padding(len_so_far as int) > old(r)@.len() && e is TruncatedPadding,
        },
{
    let remainder: u64 = len_so_far % 4;
    if remainder != 0 {
        let pad: u64 = 4 - remainder;
        match r.read_exact(pad) {
            Some(_) => Ok(()),
            None => Err(CpioError::TruncatedPadding),
        }
    } else {
        assert(r@.skip(0) =~= r@);
        Ok(())
    }
}

/// Reads one field of a `newc` header.
fn read_newc_field(r: &mut ByteReader<'_>) -> (field: Result<u32, CpioError>)
    ensures
        match field {
            Ok(value) => {
                &&& old(r)@.len() >= 8
                &&& newc_field(old(r)@.take(8)) == Ok::<u32, CpioErrorView>(value)
                &&& final(r)@ == old(r)@.skip(8)
            },
            Err(e) => if old(r)@.len() < 8 {
                e is TruncatedHeader
            } else {
                newc_field(old(r)@.take(8)) == Err::<u32, CpioErrorView>(e@)
            },
        },
{
    let bytes = match r.read_exact(8) {
        Some(bytes) => bytes,
        None => return Err(CpioError::TruncatedHeader),
    };
    let text = match utf8_text(bytes.as_slice()) {
        Ok(text) => text,
        Err(cause) => return Err(CpioError::HeaderNotText(cause)),
    };
    let chars = chars_of(text.as_str());
    match read_number(chars.as_slice(), 16, u32::MAX as u64) {
        Some(value) => Ok(value as u32),
        None => Err(CpioError::MalformedHeader),
    }
}

/// Reads the thirteen fields of a `newc` header.
fn read_newc_header(r: &mut ByteReader<'_>) -> (header: Result<Vec<u32>, CpioError>)
    ensures
        match header {
            Ok(fields) => {
                &&& newc_fields(old(r)@, 13) == Ok::<Seq<u32>, CpioErrorView>(fields@)
                &&& fields@.len() == 13
                &&& old(r)@.len() >= 104
                &&& final(r)@ == old(r)@.skip(104)
            },
            Err(e) => newc_fields(old(r)@, 13) == Err::<Seq<u32>, CpioErrorView>(e@),
        },
{
    let ghost s = r@;
    let mut fields: Vec<u32> = Vec::new();
    assert(s.skip(0) =~= s);
    for i in 0..13usize
        invariant
            s == old(r)@,
            8 * i <= s.len(),
            r@ == s.skip(8 * i as int),
            fields@.len() == i,
            newc_fields(s, i as nat) == Ok::<Seq<u32>, CpioErrorView>(fields@),
    {
        let ghost before = r@;
        assert(before.len() == s.len() - 8 * i);
        assert(s.len() >= 8 * (i + 1) ==> before.take(8) =~= s.subrange(8 * i as int, 8 * (i + 1)));
        match read_newc_field(r) {
            Ok(value) => {
                fields.push(value);
                assert(before.skip(8) =~= s.skip(8 * (i + 1)));
            },
            Err(e) => {
                assert(newc_fields(s, (i + 1) as nat) == Err::<Seq<u32>, CpioErrorView>(e@));
                proof {
                    lemma_newc_error_stays(s, (i + 1) as nat, 13);
                }
                return Err(e);
            },
        }
    }
    Ok(fields)
}

/// A header with an error among its first `m` fields has that error.
proof fn lemma_newc_error_stays(s: Seq<u8>, m: nat, n: nat)
    requires
        m <= n,
        newc_fields(s, m) is Err,
    ensures
        newc_fields(s, n) == newc_fields(s, m),
    decreases n,
{
    if m < n {
        lemma_newc_error_stays(s, m, (n - 1) as nat);
    }
}

/// Reads a name of `size` bytes.
fn read_name(r: &mut ByteReader<'_>, size: u64) -> (name: Result<String, CpioError>)
    ensures
        match name {
            Ok(text) => {
                &&& size <= old(r)@.len()
                &&& text@ == name_in(old(r)@.take(size as int))
                &&& final(r)@ == old(r)@.skip(size as int)
            },
            Err(e) => size > old(r)@.len() && e is TruncatedName,
        },
{
    match r.read_exact(size) {
        Some(bytes) => {
            let text = utf8_lossy(bytes.as_slice());
            let chars = chars_of(text.as_str());
            Ok(string_of(skip_trailing(chars.as_slice(), '\0')))
        },
        None => Err(CpioError::TruncatedName),
    }
}

/// Reads the rest of a `newc` entry, after its magic number. There is none at the trailer.
pub fn read_cpio_entry_newc(r: &mut ByteReader<'_>) -> (read: Result<
    Option<(CpioEntry, Vec<u8>)>,
    CpioError,
>)
    ensures
        entry_read(newc_entry(old(r)@), read, final(r)@),
{
    let ghost s = r@;
    let fields = match read_newc_header(r) {
        Ok(fields) => fields,
        Err(e) => return Err(e),
    };
    let mode: u32 = fields[1];
    let file_size: u64 = fields[6] as u64;
    let name_size: u64 = fields[11] as u64;
    let ghost name_end = 104 + name_size;
    let ghost body_start = name_end + padding(110 + name_size);
    let ghost body_end = body_start + file_size;
    let name = match read_name(r, name_size) {
        Ok(name) => name,
        Err(e) => return Err(e),
    };
    assert(s.skip(104).take(name_size as int) =~= s.subrange(104, name_end));
    assert(r@ =~= s.skip(name_end));
    if let Err(e) = skip_padding_newc(r, 110 + name_size) {
        return Err(e);
    }
    assert(r@ =~= s.skip(body_start));
    if same_text(name.as_str(), "TRAILER!!!") {
        return Ok(None);
    }
    let body = match r.read_exact(file_size) {
        Some(body) => body,
        None => return Err(CpioError::TruncatedBody),
    };
    assert(body@ =~= s.subrange(body_start, body_end));
    assert(r@ =~= s.skip(body_end));
    if let Err(e) = skip_padding_newc(r, file_size) {
        return Err(e);
    }
    assert(r@ =~= s.skip(body_end + padding(file_size as int)));
    Ok(Some((CpioEntry { name, mode, file_size }, body)))
}

/// Field number `i` of an `odc` header, and how many bytes it has.
fn odc_field_at(i: usize) -> (field: (OdcField, u64))
    requires
        i < 10,
    ensures
        field.0 == odc_fields()[i as int],
        field.1 == odc_width(field.0),
        odc_start(field.0) == odc_header_at(i as int),
        odc_start(field.0) + field.1 == odc_header_at(i + 1),
{
    if i == 0 {
        (OdcField::Dev, 6)
    } else if i == 1 {
        (OdcField::Ino, 6)
    } else if i == 2 {
        (OdcField::Mode, 6)
    } else if i == 3 {
        (OdcField::Uid, 6)
    } else if i == 4 {
        (OdcField::Gid, 6)
    } else if i == 5 {
        (OdcField::Nlink, 6)
    } else if i == 6 {
        (OdcField::Rdev, 6)
    } else if i == 7 {
        (OdcField::Mtime, 11)
    } else if i == 8 {
        (OdcField::NameSize, 6)
    } else {
        (OdcField::FileSize, 11)
    }
}

/// Reads one field of an `odc` header, before which the reader stands.
fn read_octal_field(r: &mut ByteReader<'_>, field: OdcField, width: u64) -> (read: Result<
    u64,
    CpioError,
>)
    requires
        width == odc_width(field),
    ensures
        match read {
            Ok(value) => {
                &&& width <= old(r)@.len()
                &&& octal_field(old(r)@, field) == Ok::<u64, CpioErrorView>(value)
                &&& final(r)@ == old(r)@.skip(width as int)
            },
            Err(e) => octal_field(old(r)@, field) == Err::<u64, CpioErrorView>(e@),
        },
{
    let bytes = match r.read_exact(width) {
        Some(bytes) => bytes,
        None => return Err(CpioError::TruncatedField(field)),
    };
    let text = match utf8_text(bytes.as_slice()) {
        Ok(text) => text,
        Err(cause) => return Err(CpioError::FieldNotText(field, cause)),
    };
    let chars = chars_of(text.as_str());
    match read_number(trim(chars.as_slice()), 8, u64::MAX) {
        Some(value) => Ok(value),
        None => Err(CpioError::MalformedField(field, text)),
    }
}

/// Reads the ten fields of an `odc` header.
fn read_odc_header(r: &mut ByteReader<'_>) -> (header: Result<Vec<u64>, CpioError>)
    ensures
        match header {
            Ok(fields) => {
                &&& odc_error(old(r)@, odc_fields()) is None
                &&& fields@.len() == 10
                &&& forall|i: int|
                    0 <= i < 10 ==> odc_field(old(r)@, odc_fields()[i]) == Ok::<u64, CpioErrorView>(
                        #[trigger] fields@[i],
                    )
                &&& old(r)@.len() >= 70
                &&& final(r)@ == old(r)@.skip(70)
            },
            Err(e) => odc_error(old(r)@, odc_fields()) == Some(e@),
        },
{
    let ghost s = r@;
    let ghost all = odc_fields();
    let mut fields: Vec<u64> = Vec::new();
    assert(s.skip(0) =~= s);
    assert(all.skip(0) =~= all);
    for i in 0..10usize
        invariant
            s == old(r)@,
            all == odc_fields(),
            odc_header_at(i as int) <= s.len(),
            r@ == s.skip(odc_header_at(i as int)),
            fields@.len() == i,
            odc_error(s, all) == odc_error(s, all.skip(i as int)),
            forall|j: int|
                0 <= j < i ==> odc_field(s, all[j]) == Ok::<u64, CpioErrorView>(
                    #[trigger] fields@[j],
                ),
    {
        let (field, width) = odc_field_at(i);
        let ghost start = odc_start(field);
        assert(all.skip(i as int)[0] == field);
        assert(all.skip(i as int).drop_first() =~= all.skip(i + 1));
        match read_octal_field(r, field, width) {
            Ok(value) => {
                fields.push(value);
                assert(s.skip(start).skip(width as int) =~= s.skip(start + width));
            },
            Err(e) => {
                return Err(e);
            },
        }
    }
    assert(all.skip(10) =~= Seq::empty());
    Ok(fields)
}

/// Reads the rest of an `odc` entry, after its magic number. There is none at the trailer.
pub fn read_cpio_entry_odc(r: &mut ByteReader<'_>) -> (read: Result<
    Option<(CpioEntry, Vec<u8>)>,
    CpioError,
>)
    ensures
        entry_read(odc_entry(old(r)@), read, final(r)@),
{
    let ghost s = r@;
    let fields = match read_odc_header(r) {
        Ok(fields) => fields,
        Err(e) => return Err(e),
    };
    let mode: u32 = fields[2] as u32;
    let name_size: u64 = fields[8];
    let file_size: u64 = fields[9];
    let ghost name_end = 70 + name_size;
    let name = match read_name(r, name_size) {
        Ok(name) => name,
        Err(e) => return Err(e),
    };
    assert(s.skip(70).take(name_size as int) =~= s.subrange(70, name_end));
    assert(r@ =~= s.skip(name_end));
    if same_text(name.as_str(), "TRAILER!!!") {
        return Ok(None);
    }
    let body = match r.read_exact(file_size) {
        Some(body) => body,
        None => return Err(CpioError::TruncatedBody),
    };
    assert(body@ =~= s.subrange(name_end, name_end + file_size));
    assert(r@ =~= s.skip(name_end + file_size));
    Ok(Some((CpioEntry { name, mode, file_size }, body)))
}

/// Reads the next entry of an archive. There is none at the trailer and where no bytes are left.
pub fn read_cpio_entry(r: &mut ByteReader<'_>) -> (read: Result<
    Option<(CpioEntry, Vec<u8>)>,
    CpioError,
>)
    ensures
        entry_read(cpio_entry(old(r)@), read, final(r)@),
{
    let magic = match read_exact_or_eof(r, 6) {
        Ok(Some(magic)) => magic,
        Ok(None) => return Ok(None),
        Err(e) => return Err(e),
    };
    let newc: [u8; 6] = [0x30, 0x37, 0x30, 0x37, 0x30, 0x31];
    let odc: [u8; 6] = [0x30, 0x37, 0x30, 0x37, 0x30, 0x37];
    assert(newc@ =~= newc_magic());
    assert(odc@ =~= odc_magic());
    if same_bytes(magic.as_slice(), newc.as_slice()) {
        read_cpio_entry_newc(r)
    } else if same_bytes(magic.as_slice(), odc.as_slice()) {
        read_cpio_entry_odc(r)
    } else {
        Err(CpioError::UnsupportedVariant(magic))
    }
}

/// Reads the next entry that is not a directory. There is none at the trailer and where no
/// bytes are left.
pub fn next_cpio_file(r: &mut ByteReader<'_>) -> (read: Result<
    Option<(CpioEntry, Vec<u8>)>,
    CpioError,
>)
    ensures
        entry_read(cpio_file(old(r)@), read, final(r)@),
{
    loop
        invariant
            cpio_file(r@) == cpio_file(old(r)@),
        decreases r@.len(),
    {
        proof {
            lemma_entry_takes_bytes(r@);
        }
        let read = read_cpio_entry(r);
        if let Ok(Some((entry, _))) = &read {
            if entry.mode & 0o170000 == 0o040000 {
                continue;
            }
        }
        return read;
    }
}

/// Counts the files in an archive.
pub fn count_cpio_files(payload_bytes: &[u8]) -> (count: Result<u64, CpioError>)
    ensures
        match count {
            Ok(n) => {
                &&& cpio_files(payload_bytes@).error is None
                &&& n == cpio_files(payload_bytes@).files.len()
            },
            Err(e) => cpio_files(payload_bytes@).error == Some(e@),
        },
{
    let mut reader = ByteReader::new(payload_bytes);
    let total: usize = payload_bytes.len();
    let mut count: u64 = 0;
    loop
        invariant
            count + reader@.len() <= total,
            cpio_files(payload_bytes@).error == cpio_files(reader@).error,
            cpio_files(payload_bytes@).files.len() == count + cpio_files(reader@).files.len(),
        decreases reader@.len(),
    {
        proof {
            lemma_file_takes_bytes(reader@);
        }
        match next_cpio_file(&mut reader) {
            Ok(Some(_)) => {
                count = count + 1;
            },
            Ok(None) => {
                return Ok(count);
            },
            Err(e) => {
                return Err(e);
            },
        }
    }
}

} // verus!
