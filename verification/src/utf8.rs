//! Bytes read as UTF-8.

use vstd::prelude::*;
use vstd::utf8::{decode_utf8, valid_utf8};

verus! {

/// The text that `String::from_utf8_lossy` makes of bytes that are not valid UTF-8.
pub uninterp spec fn replaced_text(bytes: Seq<u8>) -> Seq<char>;

/// The text in `bytes`: what they encode, or what replaces it where they are not valid UTF-8.
pub open spec fn lossy_text(bytes: Seq<u8>) -> Seq<char> {
    if valid_utf8(bytes) {
        decode_utf8(bytes)
    } else {
        replaced_text(bytes)
    }
}

/// The message of the error that `std::str::from_utf8` gives for bytes that are not valid UTF-8.
pub uninterp spec fn utf8_problem(bytes: Seq<u8>) -> Seq<char>;

/// `std::str::from_utf8`: bytes that are valid UTF-8 give the text that they encode, and no
/// others give one. The message of the error for others is named [`utf8_problem`].
#[verifier::external_body]
pub(crate) fn utf8_text(bytes: &[u8]) -> (text: Result<String, String>)
    ensures
        match text {
            Ok(t) => valid_utf8(bytes@) && t@ == decode_utf8(bytes@),
            Err(message) => !valid_utf8(bytes@) && message@ == utf8_problem(bytes@),
        },
{
    std::str::from_utf8(bytes).map(|s| s.to_owned()).map_err(|e| e.to_string())
}

/// `String::from_utf8_lossy`: bytes that are valid UTF-8 give the text that they encode. What
/// others give, with replacement characters in it, is named [`replaced_text`].
#[verifier::external_body]
pub(crate) fn utf8_lossy(bytes: &[u8]) -> (text: String)
    ensures
        text@ == if valid_utf8(bytes@) {
            decode_utf8(bytes@)
        } else {
            replaced_text(bytes@)
        },
{
    String::from_utf8_lossy(bytes).into_owned()
}

} // verus!
