//! The packet session: direction-tagged sequence numbers, nonces, and
//! AES-128-OCB3 sealing of datagrams.

pub mod cipher;
pub mod direction;
pub mod error;
pub mod key;
pub mod nonce;
pub mod session;

pub use direction::Direction;
pub use error::CryptoError;
pub use key::decode_base64_key;
pub use nonce::MoshNonce;
pub use session::{CryptoSession, DecryptedPacket};
