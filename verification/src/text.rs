//! Text: what std's decoders of UTF-8 and UTF-16 return.

use vstd::prelude::*;
use vstd::utf8::{decode_utf8, valid_utf8};
use std::string::{FromUtf16Error, FromUtf8Error};

verus! {

/// The error of `String::from_utf8`.
#[verifier::external_type_specification]
#[verifier::external_body]
pub struct ExFromUtf8Error(FromUtf8Error);

/// The error of `String::from_utf16`.
#[verifier::external_type_specification]
#[verifier::external_body]
pub struct ExFromUtf16Error(FromUtf16Error);

/// The text that a run of UTF-16 code units stands for, or `None` where the
/// units are not UTF-16: what `String::from_utf16` makes of them.
pub uninterp spec fn utf16_text(units: Seq<u16>) -> Option<Seq<char>>;

/// `String::from_utf8` succeeds on the vectors that hold UTF-8, and only on
/// them; the string then holds the characters that the bytes encode.
pub assume_specification[ String::from_utf8 ](vec: Vec<u8>) -> (r: Result<String, FromUtf8Error>)
    ensures
        r is Ok <==> valid_utf8(vec@),
        r matches Ok(s) ==> s@ == decode_utf8(vec@),
;

/// `String::from_utf16` returns the text that the code units stand for, and
/// fails where they stand for none.
pub assume_specification[ String::from_utf16 ](v: &[u16]) -> (r: Result<String, FromUtf16Error>)
    ensures
        r matches Ok(s) ==> utf16_text(v@) == Some(s@),
        r is Err ==> utf16_text(v@) is None,
;

/// `String::pop` removes the last character and returns it; an empty string
/// stays empty.
pub assume_specification[ String::pop ](s: &mut String) -> (r: Option<char>)
    ensures
        old(s)@.len() == 0 ==> r is None && final(s)@ == old(s)@,
        old(s)@.len() > 0 ==> r == Some(old(s)@.last()) && final(s)@ == old(s)@.drop_last(),
;

/// A text without its last character, which in an archive is the NUL that
/// ends every stored string. The empty text stays empty.
pub open spec fn without_terminator(text: Seq<char>) -> Seq<char> {
    if text.len() == 0 {
        text
    } else {
        text.drop_last()
    }
}

/// Removes the character that ends a stored string.
pub fn strip_terminator(text: String) -> (r: String)
    ensures
        r@ == without_terminator(text@),
{
    let mut text = text;
    text.pop();
    text
}

} // verus!
