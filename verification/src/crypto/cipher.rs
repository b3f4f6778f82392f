//! AES-128 in OCB3 mode, with a 12-byte nonce, a 16-byte tag and no
//! associated data. The cipher itself is not verified: this file states
//! what the rest of the library takes from it.

use aead::{Aead, KeyInit};
use aes::Aes128;
use ocb3::Ocb3;
use vstd::prelude::*;

verus! {

/// The error of the cipher. It carries no detail.
#[verifier::external_type_specification]
#[verifier::external_body]
pub struct ExAeadError(aead::Error);

/// The ciphertext and tag that AES-128-OCB3 makes of a plaintext.
pub uninterp spec fn ocb3_seal(key: Seq<u8>, nonce: Seq<u8>, plaintext: Seq<u8>) -> Seq<u8>;

/// The plaintext that AES-128-OCB3 recovers from a ciphertext and tag, or
/// `None` where the tag does not match.
pub uninterp spec fn ocb3_open(key: Seq<u8>, nonce: Seq<u8>, ciphertext: Seq<u8>) -> Option<
    Seq<u8>,
>;

/// The length that a plaintext must stay below for the cipher to take it:
/// 2^36 bytes where `usize` has 64 bits, 2^20 bytes where it has 32.
pub open spec fn message_len_bound() -> nat {
    if usize::BITS == 64 {
        0x10_0000_0000
    } else {
        0x10_0000
    }
}

/// `ocb3::P_MAX`; `ocb3::C_MAX` is the same number. The crate computes it
/// from the width of a pointer: 16 bytes for each of the 2^32 or 2^16 block
/// numbers that its table of offsets serves.
#[verifier::external_body]
pub(crate) fn cipher_limit() -> (n: usize)
    ensures
        n == message_len_bound(),
{
    ocb3::P_MAX
}

/// `Aead::encrypt` of `Ocb3<Aes128>`, on a cipher made from `key` by
/// `KeyInit::new`. Believed: the call returns `Ok` for every plaintext
/// shorter than `ocb3::P_MAX`; the result depends on key, nonce and plaintext
/// alone; it is the plaintext's length and 16 bytes long; and
/// `Aead::decrypt` under the same key and nonce gives the plaintext back.
///
/// The `requires` leaves out the lengths on which the crate panics: beyond
/// `P_MAX` by its own test, and at exactly `P_MAX` because the last block
/// then has a number whose offset lies one past the crate's table.
#[verifier::external_body]
pub(crate) fn seal(key: &[u8; 16], nonce: &[u8; 12], plaintext: &[u8]) -> (r: Result<
    Vec<u8>,
    aead::Error,
>)
    requires
        plaintext.len() < message_len_bound(),
    ensures
        r is Ok,
        r matches Ok(c) ==> c@ == ocb3_seal(key@, nonce@, plaintext@),
        r matches Ok(c) ==> c.len() == plaintext.len() + 16,
        r matches Ok(c) ==> ocb3_open(key@, nonce@, c@) == Some(plaintext@),
{
    Ocb3::<Aes128>::new(key.into()).encrypt(nonce.into(), plaintext)
}

/// `Aead::decrypt` of `Ocb3<Aes128>`, on a cipher made from `key` by
/// `KeyInit::new`. Believed: the result depends on key, nonce and ciphertext
/// alone; a plaintext that comes back is 16 bytes shorter than the
/// ciphertext.
///
/// The `requires` leaves out the lengths on which the crate panics: with
/// `ocb3::C_MAX` bytes or more before the tag, for the same two reasons as
/// in encryption. The crate deciphers before it compares the tag.
#[verifier::external_body]
pub(crate) fn open(key: &[u8; 16], nonce: &[u8; 12], ciphertext: &[u8]) -> (r: Result<
    Vec<u8>,
    aead::Error,
>)
    requires
        ciphertext.len() < message_len_bound() + 16,
    ensures
        r matches Ok(p) ==> ocb3_open(key@, nonce@, ciphertext@) == Some(p@),
        r matches Ok(p) ==> p.len() + 16 == ciphertext.len(),
        r is Err ==> ocb3_open(key@, nonce@, ciphertext@) is None,
{
    Ocb3::<Aes128>::new(key.into()).decrypt(nonce.into(), ciphertext)
}

} // verus!
