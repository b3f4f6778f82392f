//! The direction bit of a sequence number.

use vstd::prelude::*;

verus! {

/// The value of bit 63, which marks a packet as going to the client.
pub const DIRECTION_BIT: u64 = 0x8000_0000_0000_0000;

/// Which way a packet travels.
#[derive(Debug, Clone, Copy, PartialEq, Eq, Structural)]
pub enum Direction {
    /// From the client to the server: bit 63 is clear.
    ToServer,
    /// From the server to the client: bit 63 is set.
    ToClient,
}

/// The counter in the low 63 bits of a direction-tagged sequence number.
pub open spec fn counter_of(direction_seq: u64) -> u64 {
    (direction_seq % DIRECTION_BIT) as u64
}

impl Direction {
    /// The direction that a tagged sequence number carries in bit 63.
    pub open spec fn of(direction_seq: u64) -> Direction {
        if direction_seq < DIRECTION_BIT {
            Direction::ToServer
        } else {
            Direction::ToClient
        }
    }

    /// The low 63 bits of `seq` under this direction's bit.
    pub open spec fn tag(self, seq: u64) -> u64 {
        match self {
            Direction::ToServer => counter_of(seq),
            Direction::ToClient => (counter_of(seq) + DIRECTION_BIT) as u64,
        }
    }

    /// Reads the direction from bit 63.
    pub fn from_seq(direction_seq: u64) -> (d: Direction)
        ensures
            d == Direction::of(direction_seq),
    {
        assert((direction_seq >> 63 == 0) <==> direction_seq < 0x8000_0000_0000_0000u64)
            by (bit_vector);
        if direction_seq >> 63 == 0 {
            Direction::ToServer
        } else {
            Direction::ToClient
        }
    }

    /// Replaces bit 63 of `seq` by this direction.
    pub fn apply_to_seq(&self, seq: u64) -> (r: u64)
        ensures
            r == self.tag(seq),
    {
        assert(seq & !(1u64 << 63) == seq % 0x8000_0000_0000_0000u64 && seq | (1u64 << 63) == seq
            % 0x8000_0000_0000_0000u64 + 0x8000_0000_0000_0000u64) by (bit_vector);
        match self {
            Direction::ToServer => seq & !(1u64 << 63),
            Direction::ToClient => seq | (1u64 << 63),
        }
    }
}

/// The counter of a tagged sequence number, with bit 63 cleared.
pub fn strip_direction(direction_seq: u64) -> (seq: u64)
    ensures
        seq == counter_of(direction_seq),
{
    assert(direction_seq & !(1u64 << 63) == direction_seq % 0x8000_0000_0000_0000u64)
        by (bit_vector);
    direction_seq & !(1u64 << 63)
}

/// A tagged sequence number gives back its direction and the low 63 bits of
/// its counter.
pub proof fn lemma_tag_roundtrip(d: Direction, seq: u64)
    ensures
        Direction::of(d.tag(seq)) == d,
        counter_of(d.tag(seq)) == counter_of(seq),
        seq < DIRECTION_BIT ==> counter_of(d.tag(seq)) == seq,
{
}

} // verus!
