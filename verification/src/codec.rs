//! Base64 encodings of the `base64` crate.
use base64::Engine;
use vstd::prelude::*;

verus! {

#[verifier::external_type_specification]
#[verifier::external_body]
pub struct ExDecodeError(base64::DecodeError);

/// A symbol of the URL-safe Base64 alphabet: `A-Z`, `a-z`, `0-9`, `-` and `_`.
pub open spec fn is_url_safe_base64_char(c: char) -> bool {
    let v = c as u32;
    ||| 0x41 <= v <= 0x5A
    ||| 0x61 <= v <= 0x7A
    ||| 0x30 <= v <= 0x39
    ||| v == 0x2D
    ||| v == 0x5F
}

/// What `URL_SAFE_NO_PAD.encode` returns for these bytes.
pub uninterp spec fn base64_url_nopad_encode(bytes: Seq<u8>) -> Seq<char>;

/// What `URL_SAFE_NO_PAD.decode` returns for this text: the bytes, or `None` on a decode error.
pub uninterp spec fn base64_url_nopad_decode(text: Seq<char>) -> Option<Seq<u8>>;

/// What `STANDARD.encode` returns for these bytes.
pub uninterp spec fn base64_standard_encode(bytes: Seq<u8>) -> Seq<char>;

/// What `STANDARD.decode` returns for this text: the bytes, or `None` on a decode error.
pub uninterp spec fn base64_standard_decode(text: Seq<char>) -> Option<Seq<u8>>;

/// `base64::engine::general_purpose::URL_SAFE_NO_PAD.encode`: the URL-safe alphabet without
/// padding. Claimed: the result is the named encoding of the input, and decoding it with the
/// same engine (which requires absent padding) gives the input back; the text holds only
/// symbols of the URL-safe alphabet (no `=` padding). The encoder panics only
/// when the output length overflows `usize`, which the length bound rules out.
#[verifier::external_body]
pub(crate) fn encode_base64_url(bytes: &[u8]) -> (r: String)
    requires
        bytes@.len() <= usize::MAX / 2,
    ensures
        r@ == base64_url_nopad_encode(bytes@),
        base64_url_nopad_decode(r@) == Some(bytes@),
        forall|i: int| 0 <= i < r@.len() ==> is_url_safe_base64_char(#[trigger] r@[i]),
{
    base64::engine::general_purpose::URL_SAFE_NO_PAD.encode(bytes)
}

/// `base64::engine::general_purpose::URL_SAFE_NO_PAD.decode` of the text's bytes. Claimed: the
/// outcome is the named decoding, `Err` exactly where the name is `None`.
#[verifier::external_body]
pub(crate) fn decode_base64_url(text: &str) -> (r: Result<Vec<u8>, base64::DecodeError>)
    ensures
        match r {
            Ok(bytes) => base64_url_nopad_decode(text@) == Some(bytes@),
            Err(_) => base64_url_nopad_decode(text@) is None,
        },
{
    base64::engine::general_purpose::URL_SAFE_NO_PAD.decode(text)
}

/// `base64::engine::general_purpose::STANDARD.encode`: the standard alphabet with padding.
/// Claimed: the result is the named encoding, and `STANDARD.decode` (which requires canonical
/// padding) gives the input back. The length bound rules out the encoder's overflow panic.
#[verifier::external_body]
pub(crate) fn encode_base64_standard(bytes: &[u8]) -> (r: String)
    requires
        bytes@.len() <= usize::MAX / 2,
    ensures
        r@ == base64_standard_encode(bytes@),
        base64_standard_decode(r@) == Some(bytes@),
{
    base64::engine::general_purpose::STANDARD.encode(bytes)
}

/// `base64::engine::general_purpose::STANDARD.decode` of the text's bytes. Claimed: the outcome
/// is the named decoding, `Err` exactly where the name is `None`.
#[verifier::external_body]
pub(crate) fn decode_base64_standard(text: &str) -> (r: Result<Vec<u8>, base64::DecodeError>)
    ensures
        match r {
            Ok(bytes) => base64_standard_decode(text@) == Some(bytes@),
            Err(_) => base64_standard_decode(text@) is None,
        },
{
    base64::engine::general_purpose::STANDARD.decode(text)
}

} // verus!
