//! Decoding of encoded lyric payloads: standard base64 over UTF-8 text.
use vstd::prelude::*;
use vstd::utf8::{decode_utf8, valid_utf8};
use base64::Engine;
use crate::error::LyricError;

verus! {

/// A name for the bytes that standard base64 decoding gives for a text, or
/// none where the text is not valid standard base64.
pub uninterp spec fn base64_standard(s: Seq<char>) -> Option<Seq<u8>>;

/// Relies on base64's `BASE64_STANDARD.decode`: the decoded bytes, or none
/// where the input is not valid standard base64.
#[verifier::external_body]
fn decode_base64(s: &str) -> (r: Option<Vec<u8>>)
    ensures
        match base64_standard(s@) {
            Some(b) => r is Some && r->0@ == b,
            None => r is None,
        },
{
    base64::prelude::BASE64_STANDARD.decode(s).ok()
}

/// Relies on std's `String::from_utf8`: the text the bytes encode, where
/// they are valid UTF-8.
#[verifier::external_body]
fn utf8_string(b: Vec<u8>) -> (r: Option<String>)
    ensures
        r is Some <==> valid_utf8(b@),
        r is Some ==> r->0@ == decode_utf8(b@),
{
    String::from_utf8(b).ok()
}

/// What decoding `encrypted` gives, with `bad_base64` where it is not valid
/// base64.
pub open spec fn decoded(encrypted: Seq<char>, bad_base64: LyricError, r: Result<String, LyricError>) -> bool {
    match base64_standard(encrypted) {
        None => r == Err::<String, LyricError>(bad_base64),
        Some(b) => if !valid_utf8(b) {
            r == Err::<String, LyricError>(LyricError::LyricDecodeError)
        } else if decode_utf8(b).len() == 0 {
            r == Err::<String, LyricError>(LyricError::NoLyricFound)
        } else {
            r is Ok && r->Ok_0@ == decode_utf8(b)
        },
    }
}

fn decode_with(encrypted: &str, bad_base64: LyricError) -> (r: Result<String, LyricError>)
    ensures
        decoded(encrypted@, bad_base64, r),
{
    let bytes = match decode_base64(encrypted) {
        Some(b) => b,
        None => {
            return Err(bad_base64);
        },
    };
    let text = match utf8_string(bytes) {
        Some(t) => t,
        None => {
            return Err(LyricError::LyricDecodeError);
        },
    };
    if text.as_str().is_empty() {
        return Err(LyricError::NoLyricFound);
    }
    Ok(text)
}

/// Decodes a Kugou lyric payload; invalid base64 is a `DecodeError`.
pub fn kugou_decode_lyric(encrypted: &str) -> (r: Result<String, LyricError>)
    ensures
        decoded(encrypted@, LyricError::DecodeError, r),
{
    decode_with(encrypted, LyricError::DecodeError)
}

/// Decodes a QQ Music lyric payload; invalid base64 is a
/// `LyricDecodeError`.
pub fn qqmusic_decode_lyric(encrypted: &str) -> (r: Result<String, LyricError>)
    ensures
        decoded(encrypted@, LyricError::LyricDecodeError, r),
{
    decode_with(encrypted, LyricError::LyricDecodeError)
}

/// The lyric field of a response: present and non-empty, or `NoLyricFound`.
pub fn non_empty_lyric(field: Option<String>) -> (r: Result<String, LyricError>)
    ensures
        match field {
            Some(s) => if s@.len() > 0 {
                r is Ok && r->Ok_0@ == s@
            } else {
                r == Err::<String, LyricError>(LyricError::NoLyricFound)
            },
            None => r == Err::<String, LyricError>(LyricError::NoLyricFound),
        },
{
    match field {
        Some(s) => {
            if s.as_str().is_empty() {
                Err(LyricError::NoLyricFound)
            } else {
                Ok(s)
            }
        },
        None => Err(LyricError::NoLyricFound),
    }
}

} // verus!
