//! Errors of the instruction codec.

use vstd::prelude::*;

verus! {

/// Why bytes were not taken as an instruction.
#[derive(Debug, Clone, Copy, PartialEq, Eq, Structural)]
pub enum ProtoError {
    /// The bytes are no message in the wire format.
    DecodeFailed,
    /// The message names a protocol version other than 2.
    InvalidProtocolVersion(u32),
}

} // verus!
