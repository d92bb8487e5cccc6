//! Decoding of file contents read as bytes.

use crate::chars::push_char;
use crate::unicode::{nfc, nfc_form};
use vstd::prelude::*;

verus! {

/// The characters that `std::str::from_utf8` decodes from bytes, or `None`
/// when they are not valid UTF-8.
pub uninterp spec fn utf8_decoding(bytes: Seq<u8>) -> Option<Seq<char>>;

/// The bytes read one character per byte (Latin-1).
pub open spec fn latin1(bytes: Seq<u8>) -> Seq<char> {
    Seq::new(bytes.len(), |i: int| bytes[i] as char)
}

/// Calls `std::str::from_utf8`. The claim: the result is the named decoding
/// of `bytes`; bytes that are all ASCII decode to the characters of the same
/// codes (UTF-8 agrees with ASCII there). Which other byte strings are valid
/// is left unsaid.
#[verifier::external_body]
fn utf8_text(bytes: &[u8]) -> (r: Option<String>)
    ensures
        r is Some ==> utf8_decoding(bytes@) == Some(r.unwrap()@),
        r is None ==> utf8_decoding(bytes@) is None,
        (forall|i: int| 0 <= i < bytes@.len() ==> bytes@[i] < 128) ==> r is Some && r.unwrap()@ == latin1(bytes@),
{
    match std::str::from_utf8(bytes) {
        Ok(s) => Some(s.to_string()),
        Err(_) => None,
    }
}

/// The text of file contents: the bytes decoded as UTF-8, or one character
/// per byte when they are not valid UTF-8; then normalized to NFC.
pub open spec fn decoded_spec(bytes: Seq<u8>) -> Seq<char> {
    nfc_form(
        match utf8_decoding(bytes) {
            Some(s) => s,
            None => latin1(bytes),
        },
    )
}

/// The text that a file's contents give: the bytes decoded as UTF-8 (one
/// character per byte when they are not valid UTF-8) and normalized to NFC;
/// when `normalize_endl` asks for it, a text that does not end in a line
/// break gets one, an empty text staying empty.
pub fn decode_content(bytes: &Vec<u8>, normalize_endl: bool) -> (r: String)
    ensures
        r@ == {
            let t = decoded_spec(bytes@);
            if normalize_endl && t.len() > 0 && t.last() != '\n' {
                t.push('\n')
            } else {
                t
            }
        },
{
    let raw = match utf8_text(bytes.as_slice()) {
        Some(s) => s,
        None => {
            let mut s = String::new();
            let mut i: usize = 0;
            while i < bytes.len()
                invariant
                    i <= bytes@.len(),
                    s@ == latin1(bytes@.take(i as int)),
                decreases bytes.len() - i,
            {
                push_char(&mut s, bytes[i] as char);
                i = i + 1;
                assert(s@ =~= latin1(bytes@.take(i as int)));
            }
            assert(bytes@.take(bytes@.len() as int) =~= bytes@);
            s
        },
    };
    let mut value = nfc(raw.as_str());
    let n = value.as_str().unicode_len();
    if normalize_endl && n > 0 && value.as_str().get_char(n - 1) != '\n' {
        push_char(&mut value, '\n');
    }
    value
}

/// What is written for a text: the text and a line break.
pub fn saved_content(content: &str) -> (r: String)
    ensures
        r@ == content@.push('\n'),
{
    let mut s = content.to_string();
    push_char(&mut s, '\n');
    s
}

} // verus!
