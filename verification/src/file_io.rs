//! What is computed on the way in: the text of a body that was read as bytes.

use vstd::prelude::*;
use vstd::utf8::{decode_utf8, valid_utf8};

verus! {

/// `core::str::from_utf8`: the bytes as a string slice where they are valid
/// UTF-8, and an error, here `None`, where they are not.
#[verifier::external_body]
fn utf8_text(bytes: &[u8]) -> (text: Option<&str>)
    ensures
        match text {
            Some(slice) => valid_utf8(bytes@) && slice@ == decode_utf8(bytes@),
            None => !valid_utf8(bytes@),
        },
{
    core::str::from_utf8(bytes).ok()
}

/// The text of a body: what its bytes decode to, and the empty text where
/// they are no valid UTF-8.
pub open spec fn decoded(bytes: Seq<u8>) -> Seq<char> {
    if valid_utf8(bytes) {
        decode_utf8(bytes)
    } else {
        Seq::empty()
    }
}

/// Decodes the bytes of a body. Bytes that are no valid UTF-8 give an empty
/// body, not a failure.
pub fn decode_content(bytes: &[u8]) -> (content: String)
    ensures
        content@ == decoded(bytes@),
{
    match utf8_text(bytes) {
        Some(slice) => slice.to_owned(),
        None => String::new(),
    }
}

} // verus!
