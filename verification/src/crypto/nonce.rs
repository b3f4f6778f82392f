//! The 12-byte nonce: four zero bytes, then the tagged sequence number.

use vstd::prelude::*;
use crate::wire::{be64, from_be64, lemma_be64_roundtrip};

verus! {

/// The nonce that belongs to a tagged sequence number.
pub open spec fn nonce_of_seq(direction_seq: u64) -> Seq<u8> {
    seq![0u8, 0u8, 0u8, 0u8] + be64(direction_seq)
}

/// The nonce whose last eight bytes are the first eight of `tail`.
pub open spec fn nonce_of_tail(tail: Seq<u8>) -> Seq<u8>
    recommends
        tail.len() >= 8,
{
    seq![0u8, 0u8, 0u8, 0u8] + tail.subrange(0, 8)
}

/// A nonce for AES-128-OCB3. Only its last eight bytes travel.
#[derive(Debug, Clone, Copy, PartialEq, Eq)]
pub struct MoshNonce([u8; 12]);

impl View for MoshNonce {
    type V = Seq<u8>;

    closed spec fn view(&self) -> Seq<u8> {
        self.0@
    }
}

impl MoshNonce {
    /// The tagged sequence number in the last eight bytes.
    pub open spec fn spec_seq(&self) -> u64 {
        from_be64(self@.subrange(4, 12))
    }

    /// Builds the nonce of a tagged sequence number.
    pub fn new(seq: u64) -> (n: MoshNonce)
        ensures
            n@ == nonce_of_seq(seq),
            n.spec_seq() == seq,
    {
        let n = MoshNonce(
            [
                0,
                0,
                0,
                0,
                (seq >> 56) as u8,
                (seq >> 48) as u8,
                (seq >> 40) as u8,
                (seq >> 32) as u8,
                (seq >> 24) as u8,
                (seq >> 16) as u8,
                (seq >> 8) as u8,
                seq as u8,
            ],
        );
        proof {
            assert(n@ =~= nonce_of_seq(seq));
            assert(n@.subrange(4, 12) =~= be64(seq));
            lemma_be64_roundtrip(seq);
        }
        n
    }

    /// Rebuilds a nonce from the eight bytes that travelled.
    pub fn from_nonce_tail(tail: &[u8; 8]) -> (n: MoshNonce)
        ensures
            n@ == nonce_of_tail(tail@),
    {
        let n = MoshNonce(
            [0, 0, 0, 0, tail[0], tail[1], tail[2], tail[3], tail[4], tail[5], tail[6], tail[7]],
        );
        assert(n@ =~= nonce_of_tail(tail@));
        n
    }

    /// Rebuilds a nonce from the first eight bytes of a datagram, if it has
    /// that many.
    pub fn from_udp_payload_prefix(bytes: &[u8]) -> (r: Option<MoshNonce>)
        ensures
            r is None <==> bytes.len() < 8,
            r matches Some(n) ==> n@ == nonce_of_tail(bytes@),
    {
        if bytes.len() < 8 {
            return None;
        }
        let n = MoshNonce(
            [
                0,
                0,
                0,
                0,
                bytes[0],
                bytes[1],
                bytes[2],
                bytes[3],
                bytes[4],
                bytes[5],
                bytes[6],
                bytes[7],
            ],
        );
        assert(n@ =~= nonce_of_tail(bytes@));
        Some(n)
    }

    /// The tagged sequence number in the last eight bytes.
    pub fn seq(&self) -> (s: u64)
        ensures
            s == self.spec_seq(),
    {
        let b = &self.0;
        assert(self@.subrange(4, 12) =~= seq![b[4], b[5], b[6], b[7], b[8], b[9], b[10], b[11]]);
        ((b[4] as u64) << 56) | ((b[5] as u64) << 48) | ((b[6] as u64) << 40) | ((b[7] as u64)
            << 32) | ((b[8] as u64) << 24) | ((b[9] as u64) << 16) | ((b[10] as u64) << 8) | (
        b[11] as u64)
    }

    /// All twelve bytes, as the cipher takes them.
    pub fn as_bytes(&self) -> (b: &[u8; 12])
        ensures
            b@ == self@,
    {
        &self.0
    }

    /// The eight bytes that travel at the head of a datagram.
    pub fn tail_bytes(&self) -> (t: &[u8])
        ensures
            t@ == self@.subrange(4, 12),
    {
        let s = self.0.as_slice();
        &s[4..12]
    }
}

} // verus!
