//! Errors of the packet session.

use vstd::prelude::*;

verus! {

/// What can go wrong with a key or a packet.
#[derive(Debug, Clone, Copy, PartialEq, Eq, Structural)]
pub enum CryptoError {
    /// The key is not 16 bytes long.
    InvalidKeyLength,
    /// The key text is not URL-safe base64 without padding.
    InvalidBase64,
    /// The cipher refused the plaintext.
    EncryptionFailed,
    /// The packet does not authenticate, or its plaintext has no header.
    DecryptionFailed,
    /// A sequence number older than expected.
    ReplayAttack,
    /// The packet is shorter than a nonce tail and a tag.
    PacketTooShort,
}

impl CryptoError {
    /// A sentence for the host's log.
    pub fn message(&self) -> (s: &'static str)
        ensures
            s@ == match self {
                CryptoError::InvalidKeyLength => "Invalid key length (expected 16 bytes)"@,
                CryptoError::InvalidBase64 => "Invalid Base64 encoding"@,
                CryptoError::EncryptionFailed => "Encryption failed"@,
                CryptoError::DecryptionFailed => "Decryption failed (authentication tag mismatch)"@,
                CryptoError::ReplayAttack => "Replay attack detected: packet sequence number too old"@,
                CryptoError::PacketTooShort => "Packet too short"@,
            },
    {
        match self {
            CryptoError::InvalidKeyLength => "Invalid key length (expected 16 bytes)",
            CryptoError::InvalidBase64 => "Invalid Base64 encoding",
            CryptoError::EncryptionFailed => "Encryption failed",
            CryptoError::DecryptionFailed => "Decryption failed (authentication tag mismatch)",
            CryptoError::ReplayAttack => "Replay attack detected: packet sequence number too old",
            CryptoError::PacketTooShort => "Packet too short",
        }
    }
}

} // verus!
