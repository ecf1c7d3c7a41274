//! Text conversions from std that the codecs rely on.

use vstd::prelude::*;

verus! {

/// What `String::from_utf8_lossy` makes of a byte sequence.
pub uninterp spec fn utf8_lossy(bytes: Seq<u8>) -> Seq<char>;

/// Whether a character has the Unicode property White_Space, which
/// `char::is_whitespace` and `str::trim` go by.
pub open spec fn is_white_space(c: char) -> bool {
    let u = c as u32;
    ||| 0x09 <= u <= 0x0d
    ||| u == 0x20
    ||| u == 0x85
    ||| u == 0xa0
    ||| u == 0x1680
    ||| 0x2000 <= u <= 0x200a
    ||| u == 0x2028
    ||| u == 0x2029
    ||| u == 0x202f
    ||| u == 0x205f
    ||| u == 0x3000
}

/// Number of white-space characters at the start of the text.
pub open spec fn leading_white(t: Seq<char>) -> nat
    decreases t.len(),
{
    if t.len() > 0 && is_white_space(t[0]) { 1 + leading_white(t.drop_first()) } else { 0 }
}

/// Number of white-space characters at the end of the text.
pub open spec fn trailing_white(t: Seq<char>) -> nat
    decreases t.len(),
{
    if t.len() > 0 && is_white_space(t.last()) { 1 + trailing_white(t.drop_last()) } else { 0 }
}

/// The text with leading and trailing white space removed.
pub open spec fn trim_text(t: Seq<char>) -> Seq<char> {
    if leading_white(t) >= t.len() {
        Seq::empty()
    } else {
        t.subrange(leading_white(t) as int, t.len() - trailing_white(t))
    }
}

/// Calls `String::from_utf8_lossy`. The result is named `utf8_lossy` of the
/// bytes; on valid UTF-8 the documentation promises the very string the
/// bytes encode, which the second clause states.
#[verifier::external_body]
pub(crate) fn text_from_utf8_lossy(bytes: &[u8]) -> (s: String)
    ensures
        s@ == utf8_lossy(bytes@),
        vstd::utf8::valid_utf8(bytes@) ==> s@ == vstd::utf8::decode_utf8(bytes@),
{
    String::from_utf8_lossy(bytes).into_owned()
}

/// Calls `str::trim`, which removes leading and trailing characters with
/// the Unicode property White_Space.
#[verifier::external_body]
pub(crate) fn trim_whitespace(text: &str) -> (s: String)
    ensures
        s@ == trim_text(text@),
{
    text.trim().to_string()
}

} // verus!
