//! Errors of the transport layer.

use vstd::prelude::*;

verus! {

/// What can go wrong with a datagram or a fragment.
#[derive(Debug, Clone, Copy, PartialEq, Eq, Structural)]
pub enum TransportError {
    /// Fewer bytes than the fixed part takes.
    TooShort,
    /// The bytes are no fragment.
    InvalidFragmentFormat,
    /// The fragments do not fit together.
    AssemblyError,
}

impl TransportError {
    /// A sentence for the host's log.
    pub fn message(&self) -> (s: &'static str)
        ensures
            s@ == match self {
                TransportError::TooShort => "Packet or fragment too short"@,
                TransportError::InvalidFragmentFormat => "Invalid fragment format"@,
                TransportError::AssemblyError => "Fragment reassembly error"@,
            },
    {
        match self {
            TransportError::TooShort => "Packet or fragment too short",
            TransportError::InvalidFragmentFormat => "Invalid fragment format",
            TransportError::AssemblyError => "Fragment reassembly error",
        }
    }
}

} // verus!
