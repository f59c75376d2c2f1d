//! Text from outside: bytes of any encoding, lower case, and the quoted form of a text.

use vstd::prelude::*;

verus! {

/// The text that `String::from_utf8_lossy` makes of some bytes.
pub uninterp spec fn lossy(bytes: Seq<u8>) -> Seq<char>;

/// The text that `str::to_lowercase` makes of a text.
pub uninterp spec fn lower(s: Seq<char>) -> Seq<char>;

/// The text in which `{:?}` shows a text.
pub uninterp spec fn quoted(s: Seq<char>) -> Seq<char>;

/// Every char is an ASCII char.
pub open spec fn ascii(s: Seq<char>) -> bool {
    forall|i: int| 0 <= i < s.len() ==> (#[trigger] s[i]) <= '\u{7f}'
}

/// An ASCII char in lower case.
pub open spec fn ascii_lower(c: char) -> char {
    if 'A' <= c <= 'Z' {
        (c as int + 32) as char
    } else {
        c
    }
}

/// Calls `String::from_utf8_lossy`: bytes that are valid UTF-8 give the text they encode;
/// what it puts in place of other bytes is a function of them and not stated here.
#[verifier::external_body]
pub(crate) fn lossy_text(bytes: &Vec<u8>) -> (r: String)
    ensures
        r@ == lossy(bytes@),
        vstd::utf8::valid_utf8(bytes@) ==> r@ == vstd::utf8::decode_utf8(bytes@),
{
    String::from_utf8_lossy(bytes).into_owned()
}

/// Calls `str::to_lowercase`: of an ASCII text it changes the capital letters and nothing
/// else; what it makes of other chars is a function of the text and not stated here.
#[verifier::external_body]
pub(crate) fn lower_text(s: &str) -> (r: String)
    ensures
        r@ == lower(s@),
        ascii(s@) ==> r@ == s@.map_values(|c: char| ascii_lower(c)),
{
    s.to_lowercase()
}

/// Shows a text with `{:?}`. The form is a function of the text; how it escapes chars is
/// not stated here.
#[verifier::external_body]
pub(crate) fn quoted_text(s: &str) -> (r: String)
    ensures
        r@ == quoted(s@),
{
    format!("{s:?}")
}

} // verus!
