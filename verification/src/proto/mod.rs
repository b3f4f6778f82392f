//! The transport message and its tagged, length-delimited wire format.

pub mod decode;
pub mod error;
pub mod instruction;
pub mod roundtrip;
pub mod varint;

pub use error::ProtoError;
pub use instruction::{Instruction, MOSH_PROTOCOL_VERSION};
