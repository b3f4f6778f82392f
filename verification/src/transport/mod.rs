//! Datagrams, timestamps, and the fragments that carry one message.

pub mod assembly;
pub mod error;
pub mod fragment;
pub mod packet;
pub mod reassembly;
pub mod timestamp;

pub use assembly::FragmentAssembly;
pub use error::TransportError;
pub use fragment::{Fragment, Fragmenter};
pub use packet::UdpPacket;
pub use timestamp::Timestamp16;
