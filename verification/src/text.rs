//! UTF-8 text: the functions of the standard library that the codec calls.
use vstd::prelude::*;
use vstd::utf8::{decode_utf8, valid_utf8};

verus! {

#[verifier::external_type_specification]
#[verifier::external_body]
pub struct ExFromUtf8Error(std::string::FromUtf8Error);

#[verifier::external_type_specification]
#[verifier::external_body]
pub struct ExUtf8Error(core::str::Utf8Error);

/// `String::from_utf8` accepts valid UTF-8 and nothing else, and gives the text that it spells.
pub assume_specification[ std::string::String::from_utf8 ](vec: Vec<u8>) -> (r: Result<
    String,
    std::string::FromUtf8Error,
>)
    ensures
        r is Ok <==> valid_utf8(vec@),
        r matches Ok(s) ==> s@ == decode_utf8(vec@),
;

/// `str::from_utf8` accepts valid UTF-8 and nothing else, and gives the text that it spells.
pub assume_specification[ core::str::from_utf8 ](v: &[u8]) -> (r: Result<
    &str,
    core::str::Utf8Error,
>)
    ensures
        r is Ok <==> valid_utf8(v@),
        r matches Ok(s) ==> s@ == decode_utf8(v@),
;

/// `str::contains` with a character pattern looks for the character U+0000.
#[verifier::external_body]
pub(crate) fn contains_nul(s: &str) -> (r: bool)
    ensures
        r == s@.contains('\0'),
{
    s.contains('\0')
}

} // verus!
