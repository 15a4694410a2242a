//! Text helpers shared by the diff and tree readers.

use vstd::prelude::*;
use vstd::utf8::*;

verus! {

/// What `str::trim_end` leaves of a text: it depends on the characters alone.
pub uninterp spec fn trimmed_end(s: Seq<char>) -> Seq<char>;

/// Errors of the text helpers.
#[derive(Debug, Clone, Copy, PartialEq, Eq, Structural)]
pub enum TextError {
    /// The bytes are not valid UTF-8.
    InvalidUtf8,
}

/// Relies on `std::str::from_utf8`: it succeeds exactly on valid UTF-8 and
/// then yields the characters that the bytes encode.
#[verifier::external_body]
fn utf8_decode(bytes: &[u8]) -> (r: Option<String>)
    ensures
        r is Some <==> valid_utf8(bytes@),
        r matches Some(s) ==> s@ == decode_utf8(bytes@),
{
    match std::str::from_utf8(bytes) {
        Ok(s) => Some(s.to_string()),
        Err(_) => None,
    }
}

/// Relies on `str::trim_end`: the result is a prefix of its argument.
#[verifier::external_body]
fn trim_end_text(s: &str) -> (r: String)
    ensures
        r@ == trimmed_end(s@),
        r@.len() <= s@.len(),
        r@ == s@.subrange(0, r@.len() as int),
{
    s.trim_end().to_string()
}

/// Decodes the bytes of a blob as text.
pub fn blob_text(bytes: &[u8]) -> (r: Result<String, TextError>)
    ensures
        valid_utf8(bytes@) ==> (r matches Ok(s) && s@ == decode_utf8(bytes@)),
        !valid_utf8(bytes@) ==> r == Err::<String, TextError>(TextError::InvalidUtf8),
{
    match utf8_decode(bytes) {
        Some(s) => Ok(s),
        None => Err(TextError::InvalidUtf8),
    }
}

/// Decoding a blob and encoding the text again gives back the blob's bytes.
pub proof fn lemma_blob_text_round_trip(bytes: Seq<u8>, text: Seq<char>)
    requires
        valid_utf8(bytes),
        text == decode_utf8(bytes),
    ensures
        encode_utf8(text) == bytes,
{
    decode_utf8_encode_utf8(bytes);
}

/// The text shown for one rendered diff line: its bytes decoded, or a fixed
/// marker where they are not UTF-8, with trailing whitespace removed.
pub open spec fn line_text(bytes: Seq<u8>) -> Seq<char> {
    if valid_utf8(bytes) {
        trimmed_end(decode_utf8(bytes))
    } else {
        trimmed_end(unreadable_marker())
    }
}

/// The text that stands for a diff line whose bytes are not UTF-8.
pub open spec fn unreadable_marker() -> Seq<char> {
    seq!['F', 'A', 'I', 'L', 'E', 'D', ' ', 'T', 'O', ' ', 'P', 'A', 'R', 'S', 'E']
}

/// Converts the bytes of a rendered diff line to display text.
pub fn diff_line_text(bytes: &[u8]) -> (r: String)
    ensures
        r@ == line_text(bytes@),
{
    match utf8_decode(bytes) {
        Some(s) => trim_end_text(s.as_str()),
        None => {
            let marker = "FAILED TO PARSE";
            proof {
                reveal_strlit("FAILED TO PARSE");
            }
            assert(marker@ == unreadable_marker());
            trim_end_text(marker)
        },
    }
}

/// Relies on `str::strip_prefix`: it succeeds exactly when the text starts
/// with the prefix, and then yields the rest of the text.
#[verifier::external_body]
pub(crate) fn strip_prefix_text(s: &str, prefix: &str) -> (r: Option<String>)
    ensures
        r is Some <==> (prefix@.len() <= s@.len() && s@.subrange(0, prefix@.len() as int)
            == prefix@),
        r matches Some(t) ==> t@ == s@.subrange(prefix@.len() as int, s@.len() as int),
{
    s.strip_prefix(prefix).map(|t| t.to_string())
}

} // verus!
