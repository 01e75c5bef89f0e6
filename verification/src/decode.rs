//! The permissive single-byte decoding of the input file.
//!
//! Address books come in many encodings. Rather than reject a file, every
//! byte is read as the character with the same code point, from U+0000 to
//! U+00FF. ASCII text comes through unchanged; other text may be mangled,
//! but no input fails to decode.

use vstd::prelude::*;

verus! {

/// The text that the bytes decode to: one character for each byte, with the
/// byte's value as its code point.
pub open spec fn decoded(bytes: Seq<u8>) -> Seq<char> {
    bytes.map_values(|b: u8| b as char)
}

/// Decodes `bytes` one by one, each as the character of that code point.
pub fn decode_single_byte(bytes: &[u8]) -> (text: String)
    ensures
        text@ == decoded(bytes@),
{
    let mut text = String::new();
    let mut i: usize = 0;
    while i < bytes.len()
        invariant
            i <= bytes.len(),
            text@ == decoded(bytes@.take(i as int)),
        decreases bytes.len() - i,
    {
        text.push(bytes[i] as char);
        i += 1;
    }
    text
}

} // verus!
