//! Turning the bytes of a datagram into text.

use vstd::prelude::*;
use vstd::utf8::{encode_utf8, valid_utf8};

verus! {

/// The text that permissive decoding makes of `bytes`: the text they encode
/// where they are valid UTF-8, with U+FFFD in place of each part that is not.
pub uninterp spec fn lossy_text(bytes: Seq<u8>) -> Seq<char>;

/// `String::from_utf8_lossy`, made into an owned `String`.
///
/// Trusted: the result is a function of the bytes alone, named
/// [`lossy_text`]; and bytes that are valid UTF-8 are kept as they are, so
/// that encoding the result gives the bytes back.
#[verifier::external_body]
pub(crate) fn decode_lossy(bytes: &[u8]) -> (text: String)
    ensures
        text@ == lossy_text(bytes@),
        valid_utf8(bytes@) ==> encode_utf8(text@) == bytes@,
{
    String::from_utf8_lossy(bytes).into_owned()
}

} // verus!
