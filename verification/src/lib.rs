//! A verified carrier for an opaque byte stream over unreliable datagrams,
//! following the mosh State Synchronization Protocol.
//!
//! The layers, leaves first: big-endian wire helpers, the AES-128-OCB3 packet
//! session, the fragment codec, the instruction codec, the transport state
//! machine, the duplex stream buffers, and the client that threads them.

pub mod client;
pub mod crypto;
pub mod delivery;
pub mod egress;
pub mod proto;
pub mod ssp;
pub mod stream;
pub mod transport;
pub mod wire;

pub use client::{ClientStats, MoshClient};
pub use crypto::{
    decode_base64_key, CryptoError, CryptoSession, DecryptedPacket, Direction, MoshNonce,
};
pub use proto::{Instruction, ProtoError, MOSH_PROTOCOL_VERSION};
pub use ssp::{SspSession, SspStats, HEARTBEAT_INTERVAL_MS, RTO_INITIAL_MS, RTO_MAX_MS, RTO_MIN_MS};
pub use stream::StreamChannel;
pub use transport::{Fragment, FragmentAssembly, Fragmenter, Timestamp16, TransportError, UdpPacket};
