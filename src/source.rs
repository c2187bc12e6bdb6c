//! Decoding the bytes of a source file.
use vstd::prelude::*;
use vstd::utf8::{decode_utf8, valid_utf8};

verus! {

/// The text that `Encoding::decode` of `SHIFT_JIS` makes of some bytes, and whether it had
/// to replace malformed sequences.
pub uninterp spec fn shift_jis_decoding(b: Seq<u8>) -> (Seq<char>, bool);

/// Relies on encoding_rs's `Encoding::decode` on `SHIFT_JIS` (with BOM sniffing, malformed
/// sequences replaced): text and error flag depend on the bytes alone. Its buffer size
/// computation cannot overflow below the bound.
#[verifier::external_body]
fn decode_shift_jis(bytes: &[u8]) -> (r: (String, bool))
    requires
        bytes@.len() <= usize::MAX / 8,
    ensures
        (r.0@, r.1) == shift_jis_decoding(bytes@),
{
    let (text, _, had_errors) = encoding_rs::SHIFT_JIS.decode(bytes);
    (text.into_owned(), had_errors)
}

/// Relies on `String::from_utf8`: it succeeds exactly on valid UTF-8, with the decoded text.
#[verifier::external_body]
fn utf8_text(bytes: &[u8]) -> (r: Option<String>)
    ensures
        match r {
            Some(s) => valid_utf8(bytes@) && s@ == decode_utf8(bytes@),
            None => !valid_utf8(bytes@),
        },
{
    String::from_utf8(bytes.to_vec()).ok()
}

/// The text of a source file: its Shift_JIS decoding when that is clean, otherwise its
/// UTF-8 decoding when the bytes are valid UTF-8, otherwise the Shift_JIS decoding with
/// replacement characters.
pub open spec fn source_text(b: Seq<u8>) -> Seq<char> {
    let (t, had_errors) = shift_jis_decoding(b);
    if !had_errors {
        t
    } else if valid_utf8(b) {
        decode_utf8(b)
    } else {
        t
    }
}

/// Decodes the bytes of a source file: Shift_JIS first, UTF-8 as the fallback.
pub fn decode_source(bytes: &[u8]) -> (r: String)
    requires
        bytes@.len() <= usize::MAX / 8,
    ensures
        r@ == source_text(bytes@),
{
    let (text, had_errors) = decode_shift_jis(bytes);
    if !had_errors {
        return text;
    }
    match utf8_text(bytes) {
        Some(s) => s,
        None => text,
    }
}

} // verus!
