//! Text conversions of the query parser that std computes: lossy UTF-8
//! decoding and Unicode lowercasing. Their results are named; for ASCII
//! input both are pinned down exactly.

use vstd::prelude::*;

verus! {

/// What `String::from_utf8_lossy` makes of a byte string.
pub uninterp spec fn lossy_of(b: Seq<u8>) -> Seq<char>;

/// What `str::to_lowercase` makes of a character string.
pub uninterp spec fn lower_of(s: Seq<char>) -> Seq<char>;

pub open spec fn ascii_lower_char(c: char) -> char {
    if 65 <= c as int <= 90 {
        ((c as int + 32) as u8) as char
    } else {
        c
    }
}

/// Relies on String::from_utf8_lossy: invalid sequences are replaced, and
/// valid UTF-8 — in particular ASCII, byte for byte — passes through
/// unchanged.
#[verifier::external_body]
pub(crate) fn utf8_lossy(b: &Vec<u8>) -> (r: String)
    ensures
        r@ == lossy_of(b@),
        (forall|i: int| 0 <= i < b@.len() ==> b@[i] < 0x80) ==> r@ == b@.map_values(
            |x: u8| x as char,
        ),
{
    String::from_utf8_lossy(b.as_slice()).into_owned()
}

/// Relies on str::to_lowercase: the result depends on the characters
/// alone, and on the ASCII range it lowercases exactly as
/// `to_ascii_lowercase` does.
#[verifier::external_body]
pub(crate) fn to_lower(s: &String) -> (r: String)
    ensures
        r@ == lower_of(s@),
        (forall|i: int| 0 <= i < s@.len() ==> (s@[i] as int) < 0x80) ==> r@ == s@.map_values(
            |c: char| ascii_lower_char(c),
        ),
{
    s.to_lowercase()
}

} // verus!
