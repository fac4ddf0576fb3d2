//! Bytes to text: the validation that the standard library does for the
//! string codec.

use std::str::Utf8Error;
use std::string::FromUtf8Error;
use vstd::prelude::*;
use vstd::utf8::{decode_utf8, valid_utf8};

verus! {

/// The text that lossy conversion makes of `bytes`: the characters that
/// `String::from_utf8_lossy` returns, with U+FFFD where the bytes are
/// malformed.
pub uninterp spec fn utf8_lossy(bytes: Seq<u8>) -> Seq<char>;

/// `core::str::from_utf8` accepts exactly the well-formed UTF-8 sequences
/// and then returns the text that they encode.
pub assume_specification[ core::str::from_utf8 ](v: &[u8]) -> (outcome: std::result::Result<
    &str,
    Utf8Error,
>)
    ensures
        valid_utf8(v@) ==> outcome is Ok && outcome->Ok_0@ == decode_utf8(v@),
        !valid_utf8(v@) ==> outcome is Err,
;

/// `String::from_utf8` accepts exactly the well-formed UTF-8 sequences and
/// then returns the text that they encode.
pub assume_specification[ String::from_utf8 ](vec: Vec<u8>) -> (outcome: std::result::Result<
    String,
    FromUtf8Error,
>)
    ensures
        valid_utf8(vec@) ==> outcome is Ok && outcome->Ok_0@ == decode_utf8(vec@),
        !valid_utf8(vec@) ==> outcome is Err,
;

/// `String::from_utf8_lossy`, with the result as an owned string. Well-formed
/// bytes come back as the text that they encode; for others the result is
/// only named.
#[verifier::external_body]
pub(crate) fn lossy_text(bytes: &[u8]) -> (text: String)
    ensures
        text@ == utf8_lossy(bytes@),
        valid_utf8(bytes@) ==> text@ == decode_utf8(bytes@),
{
    String::from_utf8_lossy(bytes).into_owned()
}

} // verus!
