//! What holds of the frame of a XAR archive.

use vstd::arithmetic::power::pow;
use vstd::prelude::*;

use crate::pkg_error::PkgErrorView;
use crate::text::begins_with;
use crate::xar::{big_endian, xar_header, xar_magic, XarHeader};

verus! {

/// `n` in `len` bytes, in big-endian order.
pub open spec fn big_endian_bytes(n: nat, len: nat) -> Seq<u8>
    decreases len,
{
    if len == 0 {
        Seq::empty()
    } else {
        big_endian_bytes(n / 256, (len - 1) as nat).push((n % 256) as u8)
    }
}

/// The fixed header that gives `header_size` and `toc_length`, with `rest` in the fields that
/// do not matter.
pub open spec fn header_bytes(header_size: u16, toc_length: u64, version: Seq<u8>, rest: Seq<u8>) -> Seq<
    u8,
> {
    xar_magic() + big_endian_bytes(header_size as nat, 2) + version + big_endian_bytes(
        toc_length as nat,
        8,
    ) + rest
}

proof fn lemma_big_endian_bytes(n: nat, len: nat)
    requires
        n < pow(256, len),
    ensures
        big_endian_bytes(n, len).len() == len,
        big_endian(big_endian_bytes(n, len)) == n,
    decreases len,
{
    reveal(pow);
    if len > 0 {
        let shorter = (len - 1) as nat;
        assert(n / 256 < pow(256, shorter)) by (nonlinear_arith)
            requires
                n < pow(256, len),
                pow(256, len) == 256 * pow(256, shorter),
        ;
        lemma_big_endian_bytes(n / 256, shorter);
        let bytes = big_endian_bytes(n, len);
        assert(bytes.drop_last() =~= big_endian_bytes(n / 256, shorter));
    }
}

/// A header is read back: whatever its other fields hold, and whatever follows it, its size and
/// the length of the table of contents are those that were written, if the size is large enough
/// and the table lies within the file.
pub proof fn law_header_read_back(
    header_size: u16,
    toc_length: u64,
    version: Seq<u8>,
    rest: Seq<u8>,
)
    requires
        version.len() == 2,
        rest.len() >= 12,
    ensures
        ({
            let data = header_bytes(header_size, toc_length, version, rest);
            xar_header(data) == if header_size < 28 {
                Err::<XarHeader, PkgErrorView>(PkgErrorView::HeaderTooSmall(header_size))
            } else if data.len() < header_size + toc_length {
                Err(PkgErrorView::TocTruncated)
            } else {
                Ok(XarHeader { header_size, toc_length_compressed: toc_length })
            }
        }),
{
    let data = header_bytes(header_size, toc_length, version, rest);
    assert(pow(256, 2) == 0x1_0000 && pow(256, 8) == 0x1_0000_0000_0000_0000) by {
        reveal(pow);
        reveal_with_fuel(pow, 9);
    }
    lemma_big_endian_bytes(header_size as nat, 2);
    lemma_big_endian_bytes(toc_length as nat, 8);
    assert(data.subrange(0, 4) =~= xar_magic());
    assert(begins_with(data, xar_magic()));
    assert(data.subrange(4, 6) =~= big_endian_bytes(header_size as nat, 2));
    assert(data.subrange(8, 16) =~= big_endian_bytes(toc_length as nat, 8));
}

} // verus!
