//! Why the body of a reply did not read as the value that was asked for.

use vstd::prelude::*;
use vstd::utf8::{decode_utf8, valid_utf8};

verus! {

/// Why a reply's body was refused.
#[derive(Debug, PartialEq, Eq)]
pub enum ParseError {
    /// The body could not be read from the connection.
    ResponseDecodeError,
    /// The body is UTF-8 text but not JSON; the text is kept.
    ResponseJsonParseError(String),
    /// The body is JSON, but not of the shape that was asked for.
    ResponseParseError,
    /// The body is neither JSON nor UTF-8 text.
    ResponseUtf8Error,
}

/// Whether serde_json reads `bytes` as one JSON value.
pub uninterp spec fn json_value(bytes: Seq<u8>) -> bool;

/// serde_json's `from_slice` into a `serde_json::Value`: whether it succeeds.
#[verifier::external_body]
fn parses_as_json(bytes: &[u8]) -> (r: bool)
    ensures
        r == json_value(bytes@),
{
    serde_json::from_slice::<serde_json::Value>(bytes).is_ok()
}

/// std's `str::from_utf8`: the text that `bytes` encode, when they are valid
/// UTF-8, as its documentation says.
#[verifier::external_body]
fn utf8_text(bytes: &[u8]) -> (r: Option<String>)
    ensures
        match r {
            Some(s) => valid_utf8(bytes@) && s@ == decode_utf8(bytes@),
            None => !valid_utf8(bytes@),
        },
{
    std::str::from_utf8(bytes).ok().map(|s| s.to_owned())
}

/// Why a body that did not read as the wanted value is refused: it is JSON
/// of another shape; else it is text that is not JSON; else it is not text.
pub fn parse_failure(bytes: &[u8]) -> (r: ParseError)
    ensures
        match r {
            ParseError::ResponseParseError => json_value(bytes@),
            ParseError::ResponseJsonParseError(text) => !json_value(bytes@) && valid_utf8(bytes@)
                && text@ == decode_utf8(bytes@),
            ParseError::ResponseUtf8Error => !json_value(bytes@) && !valid_utf8(bytes@),
            ParseError::ResponseDecodeError => false,
        },
{
    if parses_as_json(bytes) {
        ParseError::ResponseParseError
    } else {
        match utf8_text(bytes) {
            Some(text) => ParseError::ResponseJsonParseError(text),
            None => ParseError::ResponseUtf8Error,
        }
    }
}

} // verus!
