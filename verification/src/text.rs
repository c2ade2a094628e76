//! Lossy UTF-8 decoding of raw bytes. Values and snapshot keys travel as
//! byte strings; wherever they are shown as text, invalid sequences are
//! replaced rather than rejected.

use vstd::prelude::*;

verus! {

/// The characters that lossy decoding yields for an invalid byte sequence;
/// a function of the bytes alone.
pub uninterp spec fn lossy_utf8(b: Seq<u8>) -> Seq<char>;

/// The text a byte sequence is shown as: valid UTF-8 decodes exactly;
/// anything else decodes with replacement.
pub open spec fn spec_lossy(b: Seq<u8>) -> Seq<char> {
    if vstd::utf8::valid_utf8(b) {
        vstd::utf8::decode_utf8(b)
    } else {
        lossy_utf8(b)
    }
}

/// Relies on `String::from_utf8_lossy`: the result depends only on the
/// bytes, and valid UTF-8 input is decoded exactly, with no replacement.
#[verifier::external_body]
pub fn lossy_string(b: &[u8]) -> (r: String)
    ensures
        r@ == spec_lossy(b@),
        !vstd::utf8::valid_utf8(b@) ==> r@ == lossy_utf8(b@),
{
    String::from_utf8_lossy(b).to_string()
}

} // verus!
