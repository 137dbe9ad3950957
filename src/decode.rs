//! The record decoder: a tailed payload as a line of text.

use vstd::prelude::*;
use vstd::utf8::{decode_utf8, valid_utf8};

verus! {

/// The line shown for a record whose payload is empty.
pub const EMPTY_PAYLOAD_TEXT: &'static str = "Record payload is empty.";

/// A payload that is not valid UTF-8.
#[derive(Clone, Copy, Debug, PartialEq, Eq, Structural)]
pub enum DecodeError {
    InvalidUtf8,
}

/// The characters of the placeholder line.
pub open spec fn placeholder_text() -> Seq<char> {
    EMPTY_PAYLOAD_TEXT@
}

/// The line for a payload: the placeholder for an empty one, the decoded
/// text for valid UTF-8, and nothing for any other.
pub open spec fn decoded(payload: Seq<u8>) -> Option<Seq<char>> {
    if payload.len() == 0 {
        Some(placeholder_text())
    } else if valid_utf8(payload) {
        Some(decode_utf8(payload))
    } else {
        None
    }
}

/// Relies on `std::str::from_utf8`: it succeeds exactly on valid UTF-8, and
/// the text it gives is the one those bytes encode.
#[verifier::external_body]
fn utf8_str(bytes: &[u8]) -> (r: Option<&str>)
    ensures
        r is Some <==> valid_utf8(bytes@),
        r matches Some(s) ==> s@ == decode_utf8(bytes@),
{
    std::str::from_utf8(bytes).ok()
}

/// Interprets one payload as a line of text.
pub fn decode_record(payload: &[u8]) -> (r: Result<String, DecodeError>)
    ensures
        match decoded(payload@) {
            Some(t) => r matches Ok(s) && s@ == t,
            None => r == Err::<String, DecodeError>(DecodeError::InvalidUtf8),
        },
{
    if payload.len() == 0 {
        return Ok(String::from_str(EMPTY_PAYLOAD_TEXT));
    }
    match utf8_str(payload) {
        Some(s) => Ok(String::from_str(s)),
        None => Err(DecodeError::InvalidUtf8),
    }
}

} // verus!
