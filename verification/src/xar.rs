//! The frame of a XAR archive: a fixed header, a packed table of contents, and a heap.

use vstd::arithmetic::power::{lemma_pow0, lemma_pow_increases, pow};
use vstd::prelude::*;
use vstd::slice::slice_subrange;
use vstd::utf8::{decode_utf8, valid_utf8};

use crate::inflate::{inflate, inflated, unpacked_view};
use crate::pkg_error::{PkgError, PkgErrorView};
use crate::text::{begins_with, bytes_at};
use crate::utf8::utf8_text;

verus! {

/// What matters of the fixed header.
#[derive(Debug, Clone, Copy, PartialEq, Eq, Structural)]
pub struct XarHeader {
    /// Size of the header, which is where the table of contents starts.
    pub header_size: u16,
    /// Size of the packed table of contents.
    pub toc_length_compressed: u64,
}

impl XarHeader {
    /// Where the heap starts.
    pub open spec fn heap_start(self) -> int {
        self.header_size + self.toc_length_compressed
    }
}

/// The first four bytes of a XAR archive.
pub open spec fn xar_magic() -> Seq<u8> {
    seq![0x78u8, 0x61, 0x72, 0x21]
}

/// The number that `s` is in big-endian order.
pub open spec fn big_endian(s: Seq<u8>) -> nat
    decreases s.len(),
{
    if s.len() == 0 {
        0
    } else {
        big_endian(s.drop_last()) * 256 + s.last() as nat
    }
}

/// What the fixed header of `data` says, or why `data` is no XAR archive.
pub open spec fn xar_header(data: Seq<u8>) -> Result<XarHeader, PkgErrorView> {
    let header_size = big_endian(data.subrange(4, 6));
    let toc_length = big_endian(data.subrange(8, 16));
    if data.len() < 28 || !begins_with(data, xar_magic()) {
        Err(PkgErrorView::NotXar)
    } else if header_size < 28 {
        Err(PkgErrorView::HeaderTooSmall(header_size as u16))
    } else if data.len() < header_size + toc_length {
        Err(PkgErrorView::TocTruncated)
    } else {
        Ok(
            XarHeader {
                header_size: header_size as u16,
                toc_length_compressed: toc_length as u64,
            },
        )
    }
}

/// Eight bytes make a number below two to the power of sixty-four.
proof fn lemma_big_endian_bound(s: Seq<u8>)
    ensures
        s.len() == 2 ==> big_endian(s) <= u16::MAX,
        s.len() == 8 ==> big_endian(s) <= u64::MAX,
{
    reveal_with_fuel(big_endian, 9);
}

/// Reads `len` bytes at `at` as a big-endian number.
fn read_big_endian(data: &[u8], at: usize, len: usize) -> (value: u64)
    requires
        at + len <= data@.len(),
        len <= 8,
    ensures
        value == big_endian(data@.subrange(at as int, at + len)),
{
    let ghost whole = data@.subrange(at as int, at + len);
    let total: usize = data.len();
    proof {
        lemma_pow0(256);
    }
    let mut value: u64 = 0;
    let mut bound: u128 = 1;
    for i in 0..len
        invariant
            at + len <= data@.len() == total,
            len <= 8,
            whole == data@.subrange(at as int, at + len),
            value == big_endian(whole.take(i as int)),
            value < bound,
            bound == pow(256, i as nat),
            bound <= 0x1_0000_0000_0000_0000,
    {
        proof {
            reveal(pow);
            lemma_pow_increases(256, (i + 1) as nat, 8);
            assert(pow(256, 8) == 0x1_0000_0000_0000_0000) by {
                reveal_with_fuel(pow, 9);
            }
            assert(whole.take(i + 1).drop_last() =~= whole.take(i as int));
            assert(whole.take(i + 1).last() == data@[at + i]);
        }
        value = value * 256 + data[at + i] as u64;
        bound = bound * 256;
    }
    assert(whole.take(len as int) =~= whole);
    value
}

/// Reads the fixed header.
pub fn parse_xar_header(data: &[u8]) -> (header: Result<XarHeader, PkgError>)
    ensures
        match header {
            Ok(h) => xar_header(data@) == Ok::<XarHeader, PkgErrorView>(h),
            Err(e) => xar_header(data@) == Err::<XarHeader, PkgErrorView>(e@),
        },
{
    let magic: [u8; 4] = [0x78, 0x61, 0x72, 0x21];
    assert(magic@ =~= xar_magic());
    if data.len() < 28 || !bytes_at(data, magic.as_slice(), 0) {
        return Err(PkgError::NotXar);
    }
    proof {
        lemma_big_endian_bound(data@.subrange(4, 6));
    }
    let header_size = read_big_endian(data, 4, 2) as u16;
    let toc_length_compressed: u64 = read_big_endian(data, 8, 8);
    if header_size < 28 {
        return Err(PkgError::HeaderTooSmall(header_size));
    }
    let have: u64 = data.len() as u64;
    if have < header_size as u64 || have - (header_size as u64) < toc_length_compressed {
        return Err(PkgError::TocTruncated);
    }
    Ok(XarHeader { header_size, toc_length_compressed })
}

/// The text of a table of contents that unpacks to `unpacked`.
pub open spec fn toc_text_of(unpacked: Result<Seq<u8>, Seq<char>>) -> Result<
    Seq<char>,
    PkgErrorView,
> {
    match unpacked {
        Err(cause) => Err(PkgErrorView::TocUnreadable(cause)),
        Ok(bytes) => if valid_utf8(bytes) {
            Ok(decode_utf8(bytes))
        } else {
            Err(PkgErrorView::TocUnreadable("stream did not contain valid UTF-8"@))
        },
    }
}

/// The text of the table of contents of `data`.
pub open spec fn toc_xml(data: Seq<u8>, header: XarHeader) -> Result<Seq<char>, PkgErrorView> {
    toc_text_of(inflated(data.subrange(header.header_size as int, header.heap_start())))
}

/// The text of a table of contents that unpacks to `unpacked`.
pub fn toc_text(unpacked: Result<Vec<u8>, String>) -> (text: Result<String, PkgError>)
    ensures
        match text {
            Ok(t) => toc_text_of(unpacked_view(unpacked)) == Ok::<Seq<char>, PkgErrorView>(t@),
            Err(e) => toc_text_of(unpacked_view(unpacked)) == Err::<Seq<char>, PkgErrorView>(e@),
        },
{
    match unpacked {
        Err(cause) => Err(PkgError::TocUnreadable(cause)),
        Ok(bytes) => match utf8_text(bytes.as_slice()) {
            Ok(text) => Ok(text),
            Err(_) => Err(PkgError::TocUnreadable("stream did not contain valid UTF-8".to_owned())),
        },
    }
}

/// Unpacks the table of contents and returns its text.
pub fn read_toc_xml(data: &[u8], header: &XarHeader) -> (text: Result<String, PkgError>)
    requires
        header.heap_start() <= data@.len(),
    ensures
        match text {
            Ok(t) => toc_xml(data@, *header) == Ok::<Seq<char>, PkgErrorView>(t@),
            Err(e) => toc_xml(data@, *header) == Err::<Seq<char>, PkgErrorView>(e@),
        },
{
    let toc_start: usize = header.header_size as usize;
    let have: usize = data.len();
    let toc_end: usize = toc_start + header.toc_length_compressed as usize;
    toc_text(inflate(slice_subrange(data, toc_start, toc_end)))
}

} // verus!
