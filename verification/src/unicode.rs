//! Trusted items for Unicode facts that come from outside the library.

use unicode_normalization::UnicodeNormalization;
use unicode_width::UnicodeWidthChar;
use vstd::prelude::*;

verus! {

/// The display width that `unicode_width::UnicodeWidthChar::width` gives a
/// character (`None` for control characters).
pub uninterp spec fn unicode_char_width(c: char) -> Option<usize>;

/// Calls `unicode_width::UnicodeWidthChar::width`. The claim: the result is the
/// named width of `c`; it is `None` exactly for the control characters below
/// U+0020 and in U+007F..U+009F, `Some(1)` for the printable ASCII range, and
/// never above 255 (the crate's tables hold `u8` widths). The widths it gives
/// other characters are left unsaid.
#[verifier::external_body]
pub fn char_width(c: char) -> (r: Option<usize>)
    ensures
        r == unicode_char_width(c),
        r is None <==> ((c as u32) < 0x20 || (0x7F <= (c as u32) && (c as u32) < 0xA0)),
        (0x20 <= (c as u32) && (c as u32) < 0x7F) ==> r == Some(1usize),
        r is Some ==> r.unwrap() <= 255,
{
    UnicodeWidthChar::width(c)
}

/// The NFC normal form that `unicode_normalization::UnicodeNormalization::nfc`
/// gives a string.
pub uninterp spec fn nfc_form(s: Seq<char>) -> Seq<char>;

/// Calls `UnicodeNormalization::nfc` and collects the result. The claim: the
/// result is the named NFC form of `s`, and an ASCII string is its own NFC
/// form (ASCII characters neither decompose nor compose). The form of other
/// strings is left unsaid.
#[verifier::external_body]
pub fn nfc(s: &str) -> (r: String)
    ensures
        r@ == nfc_form(s@),
        all_ascii(s@) ==> r@ == s@,
{
    s.nfc().collect()
}

/// Whether every character is ASCII.
pub open spec fn all_ascii(s: Seq<char>) -> bool {
    forall|i: int| 0 <= i < s.len() ==> (s[i] as u32) < 128
}

/// The ASCII upper case of a character; others stay.
pub open spec fn ascii_upper(c: char) -> char {
    if 'a' <= c && c <= 'z' {
        ((c as u32) - 32) as char
    } else {
        c
    }
}

/// The ASCII lower case of a character; others stay.
pub open spec fn ascii_lower(c: char) -> char {
    if 'A' <= c && c <= 'Z' {
        ((c as u32) + 32) as char
    } else {
        c
    }
}

/// The string that `str::to_uppercase` gives.
pub uninterp spec fn upper_form(s: Seq<char>) -> Seq<char>;

/// Calls `str::to_uppercase`. The claim: the result is the named upper-case
/// form of `s`, and an ASCII string maps character by character to its ASCII
/// upper case (the Unicode mapping agrees with ASCII there); the mapping of
/// other characters is left unsaid.
#[verifier::external_body]
pub fn to_upper(s: &str) -> (r: String)
    ensures
        r@ == upper_form(s@),
        all_ascii(s@) ==> r@ == s@.map_values(|c: char| ascii_upper(c)),
{
    s.to_uppercase()
}

/// The string that `str::to_lowercase` gives.
pub uninterp spec fn lower_form(s: Seq<char>) -> Seq<char>;

/// Calls `str::to_lowercase`. The claim: the result is the named lower-case
/// form of `s`, and an ASCII string maps character by character to its ASCII
/// lower case (the Unicode mapping agrees with ASCII there); the mapping of
/// other characters is left unsaid.
#[verifier::external_body]
pub fn to_lower(s: &str) -> (r: String)
    ensures
        r@ == lower_form(s@),
        all_ascii(s@) ==> r@ == s@.map_values(|c: char| ascii_lower(c)),
{
    s.to_lowercase()
}

/// Whether `char::is_alphanumeric` holds of a character.
pub uninterp spec fn unicode_alphanumeric(c: char) -> bool;

/// Calls `char::is_alphanumeric`. The claim: the result is the named property
/// of `c`, and it holds of the ASCII letters and digits and of no other ASCII
/// character (as the documentation of `is_alphabetic`/`is_numeric` says).
#[verifier::external_body]
pub fn is_alphanumeric(c: char) -> (r: bool)
    ensures
        r == unicode_alphanumeric(c),
        (c as u32) < 128 ==> (r <==> (('a' <= c && c <= 'z') || ('A' <= c && c <= 'Z') || ('0' <= c && c <= '9'))),
{
    c.is_alphanumeric()
}

} // verus!
