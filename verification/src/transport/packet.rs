//! A datagram split into the nonce tail and the rest.

use vstd::prelude::*;
use crate::transport::error::TransportError;

verus! {

/// The length of the nonce tail at the head of a datagram.
pub const NONCE_TAIL_LEN: usize = 8;

/// A datagram: the last eight bytes of the nonce, then ciphertext and tag.
#[derive(Debug, Clone, PartialEq)]
pub struct UdpPacket {
    /// The last eight bytes of the nonce.
    pub nonce_tail: [u8; 8],
    /// The sealed fragment with its 16-byte tag.
    pub ciphertext: Vec<u8>,
}

impl UdpPacket {
    /// The bytes of this datagram on the wire.
    pub open spec fn wire(&self) -> Seq<u8> {
        self.nonce_tail@ + self.ciphertext@
    }

    /// Puts a nonce tail and a ciphertext together.
    pub fn new(nonce_tail: [u8; 8], ciphertext: Vec<u8>) -> (p: UdpPacket)
        ensures
            p.nonce_tail == nonce_tail,
            p.ciphertext == ciphertext,
    {
        UdpPacket { nonce_tail, ciphertext }
    }

    /// Splits a received datagram. It needs its eight bytes of nonce tail.
    pub fn from_udp_payload(bytes: &[u8]) -> (r: Result<UdpPacket, TransportError>)
        ensures
            bytes.len() < 8 ==> r == Err::<UdpPacket, TransportError>(TransportError::TooShort),
            bytes.len() >= 8 ==> r is Ok,
            r matches Ok(p) ==> p.nonce_tail@ == bytes@.subrange(0, 8) && p.ciphertext@
                == bytes@.subrange(8, bytes.len() as int) && p.wire() == bytes@,
    {
        if bytes.len() < NONCE_TAIL_LEN {
            return Err(TransportError::TooShort);
        }
        let nonce_tail: [u8; 8] = [
            bytes[0],
            bytes[1],
            bytes[2],
            bytes[3],
            bytes[4],
            bytes[5],
            bytes[6],
            bytes[7],
        ];
        let ciphertext = vstd::slice::slice_to_vec(
            vstd::slice::slice_subrange(bytes, NONCE_TAIL_LEN, bytes.len()),
        );
        let p = UdpPacket { nonce_tail, ciphertext };
        proof {
            assert(p.nonce_tail@ =~= bytes@.subrange(0, 8));
            assert(p.wire() =~= bytes@);
        }
        Ok(p)
    }

    /// The bytes to hand to the socket.
    pub fn to_udp_payload(&self) -> (bytes: Vec<u8>)
        ensures
            bytes@ == self.wire(),
    {
        let mut payload: Vec<u8> = Vec::new();
        payload.extend_from_slice(self.nonce_tail.as_slice());
        payload.extend_from_slice(self.ciphertext.as_slice());
        assert(payload@ =~= self.wire());
        payload
    }

    /// The length of the datagram.
    pub fn total_len(&self) -> (n: usize)
        requires
            self.ciphertext.len() + 8 <= usize::MAX,
        ensures
            n == self.wire().len(),
            n == 8 + self.ciphertext.len(),
    {
        NONCE_TAIL_LEN + self.ciphertext.len()
    }
}

} // verus!
