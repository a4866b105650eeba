//! Decompression.

use std::io::Read;

use vstd::prelude::*;

use flate2::read::{GzDecoder, ZlibDecoder};

verus! {

/// The bytes that a zlib stream unpacks to, or the message of the decoder's error.
pub uninterp spec fn inflated(data: Seq<u8>) -> Result<Seq<u8>, Seq<char>>;

/// The bytes that a gzip stream unpacks to, or the message of the decoder's error.
pub uninterp spec fn gunzipped(data: Seq<u8>) -> Result<Seq<u8>, Seq<char>>;

/// What an unpacking comes to.
pub open spec fn unpacked_view(unpacked: Result<Vec<u8>, String>) -> Result<Seq<u8>, Seq<char>> {
    match unpacked {
        Ok(bytes) => Ok(bytes@),
        Err(message) => Err(message@),
    }
}

/// `flate2::read::ZlibDecoder`, read to its end: what `data` unpacks to, named [`inflated`].
#[verifier::external_body]
pub(crate) fn inflate(data: &[u8]) -> (unpacked: Result<Vec<u8>, String>)
    ensures
        unpacked_view(unpacked) == inflated(data@),
{
    let mut out = Vec::new();
    match ZlibDecoder::new(data).read_to_end(&mut out) {
        Ok(_) => Ok(out),
        Err(e) => Err(e.to_string()),
    }
}

/// `flate2::read::GzDecoder`, read to its end: what `data` unpacks to, named [`gunzipped`].
#[verifier::external_body]
pub(crate) fn gunzip(data: &[u8]) -> (unpacked: Result<Vec<u8>, String>)
    ensures
        unpacked_view(unpacked) == gunzipped(data@),
{
    let mut out = Vec::new();
    match GzDecoder::new(data).read_to_end(&mut out) {
        Ok(_) => Ok(out),
        Err(e) => Err(e.to_string()),
    }
}

} // verus!
