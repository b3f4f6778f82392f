//! The pre-shared key: 16 raw bytes, or 22 characters of URL-safe base64
//! without padding.

use base64::Engine;
use vstd::prelude::*;
use crate::crypto::error::CryptoError;

verus! {

/// The length of an AES-128 key.
pub const KEY_LEN: usize = 16;

/// The error of the base64 decoder.
#[verifier::external_type_specification]
#[verifier::external_body]
pub struct ExBase64DecodeError(base64::DecodeError);

/// The bytes that a text stands for in URL-safe base64 without padding, or
/// `None` where the text is not such an encoding.
pub uninterp spec fn base64url_decode(text: Seq<char>) -> Option<Seq<u8>>;

/// `Engine::decode` of `base64::engine::general_purpose::URL_SAFE_NO_PAD`.
/// Believed: whether the text decodes, and to which bytes, depends on the
/// text alone.
#[verifier::external_body]
pub(crate) fn decode_url_safe_no_pad(text: &str) -> (r: Result<Vec<u8>, base64::DecodeError>)
    ensures
        r matches Ok(b) ==> base64url_decode(text@) == Some(b@),
        r is Err ==> base64url_decode(text@) is None,
{
    base64::engine::general_purpose::URL_SAFE_NO_PAD.decode(text)
}

/// The key that decoded bytes give: they must be exactly 16.
pub open spec fn key_of_bytes(bytes: Seq<u8>) -> Result<Seq<u8>, CryptoError> {
    if bytes.len() == 16 {
        Ok(bytes)
    } else {
        Err(CryptoError::InvalidKeyLength)
    }
}

/// The key that a base64 text gives.
pub open spec fn key_of_text(text: Seq<char>) -> Result<Seq<u8>, CryptoError> {
    match base64url_decode(text) {
        None => Err(CryptoError::InvalidBase64),
        Some(bytes) => key_of_bytes(bytes),
    }
}

/// Takes exactly 16 bytes as a key.
pub fn key_from_bytes(bytes: &[u8]) -> (r: Result<[u8; 16], CryptoError>)
    ensures
        match r {
            Ok(key) => key_of_bytes(bytes@) == Ok::<Seq<u8>, CryptoError>(key@),
            Err(e) => key_of_bytes(bytes@) == Err::<Seq<u8>, CryptoError>(e),
        },
{
    if bytes.len() != KEY_LEN {
        return Err(CryptoError::InvalidKeyLength);
    }
    let key: [u8; 16] = [
        bytes[0],
        bytes[1],
        bytes[2],
        bytes[3],
        bytes[4],
        bytes[5],
        bytes[6],
        bytes[7],
        bytes[8],
        bytes[9],
        bytes[10],
        bytes[11],
        bytes[12],
        bytes[13],
        bytes[14],
        bytes[15],
    ];
    assert(key@ =~= bytes@);
    Ok(key)
}

/// Decodes a key from 22 characters of URL-safe base64 without padding.
pub fn decode_base64_key(key_b64: &str) -> (r: Result<[u8; 16], CryptoError>)
    ensures
        match r {
            Ok(key) => key_of_text(key_b64@) == Ok::<Seq<u8>, CryptoError>(key@),
            Err(e) => key_of_text(key_b64@) == Err::<Seq<u8>, CryptoError>(e),
        },
{
    match decode_url_safe_no_pad(key_b64) {
        Ok(bytes) => key_from_bytes(bytes.as_slice()),
        Err(_) => Err(CryptoError::InvalidBase64),
    }
}

} // verus!
