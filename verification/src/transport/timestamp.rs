//! The 16-bit timestamp: the low 16 bits of a clock in milliseconds.

use vstd::prelude::*;
use vstd::std_specs::convert::FromSpecImpl;

verus! {

/// The 16 bits that stand for "no timestamp yet".
pub const UNINITIALIZED: u16 = 0xFFFF;

/// A clock reading modulo 2^16 milliseconds.
#[derive(Debug, Clone, Copy, PartialEq, Eq, Structural)]
pub struct Timestamp16(pub u16);

impl Timestamp16 {
    /// The timestamp that stands for "none yet".
    pub fn init() -> (t: Timestamp16)
        ensures
            t.0 == UNINITIALIZED,
    {
        Timestamp16(UNINITIALIZED)
    }

    /// The timestamp of a clock reading.
    pub fn now_from_ms(now_ms: u64) -> (t: Timestamp16)
        ensures
            t.0 == now_ms % 0x1_0000,
    {
        assert((now_ms & 0xFFFF) as u16 == now_ms % 0x1_0000) by (bit_vector);
        Timestamp16((now_ms & 0xFFFF) as u16)
    }

    /// The milliseconds from `older` to `newer`, modulo 2^16.
    pub fn diff(newer: Timestamp16, older: Timestamp16) -> (d: u16)
        ensures
            d == (newer.0 - older.0) % 0x1_0000,
            newer.0 >= older.0 ==> d == newer.0 - older.0,
            newer.0 < older.0 ==> d == newer.0 + 0x1_0000 - older.0,
    {
        newer.0.wrapping_sub(older.0)
    }

    /// The 16 bits.
    pub fn raw(&self) -> (r: u16)
        ensures
            r == self.0,
    {
        self.0
    }

    /// Whether this is anything but the value of `init`.
    pub fn is_initialized(&self) -> (b: bool)
        ensures
            b == (self.0 != 0xFFFF),
    {
        self.0 != u16::MAX
    }
}

impl From<u16> for Timestamp16 {
    fn from(val: u16) -> (t: Timestamp16) {
        Timestamp16(val)
    }
}

impl FromSpecImpl<u16> for Timestamp16 {
    open spec fn obeys_from_spec() -> bool {
        true
    }

    open spec fn from_spec(val: u16) -> Timestamp16 {
        Timestamp16(val)
    }
}

} // verus!
