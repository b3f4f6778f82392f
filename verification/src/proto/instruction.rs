//! The transport message: sequencing numbers and an optional piece of the
//! byte stream.
//!
//! On the wire each field that is present is a key byte, `8 * tag + type`,
//! and a value: a variable-length integer for the numbers (type 0), a
//! length and that many bytes for `diff` and `chaff` (type 2). Fields are
//! written in the order of their tags, 1 to 7.

use vstd::prelude::*;
use crate::proto::varint::{put_varint, varint};

verus! {

/// The only protocol version that is spoken.
pub const MOSH_PROTOCOL_VERSION: u32 = 2;

/// One transport message. An absent number counts as 0.
#[derive(Debug, Clone, PartialEq)]
pub struct Instruction {
    /// Tag 1: the protocol version, 2 where present.
    pub protocol_version: Option<u32>,
    /// Tag 2: the state that `diff` starts from.
    pub old_num: Option<u64>,
    /// Tag 3: the state that `diff` leads to; 0 marks a heartbeat.
    pub new_num: Option<u64>,
    /// Tag 4: the newest state received from the peer.
    pub ack_num: Option<u64>,
    /// Tag 5: the peer may forget every state below this one.
    pub throwaway_num: Option<u64>,
    /// Tag 6: a piece of the byte stream.
    pub diff: Option<Vec<u8>>,
    /// Tag 7: padding, which nothing reads.
    pub chaff: Option<Vec<u8>>,
}

/// The mathematical content of an `Instruction`.
pub struct InstructionView {
    pub protocol_version: Option<u32>,
    pub old_num: Option<u64>,
    pub new_num: Option<u64>,
    pub ack_num: Option<u64>,
    pub throwaway_num: Option<u64>,
    pub diff: Option<Seq<u8>>,
    pub chaff: Option<Seq<u8>>,
}

/// The view of optional bytes.
pub open spec fn bytes_view(b: Option<Vec<u8>>) -> Option<Seq<u8>> {
    match b {
        Some(v) => Some(v@),
        None => None,
    }
}

impl View for Instruction {
    type V = InstructionView;

    open spec fn view(&self) -> InstructionView {
        InstructionView {
            protocol_version: self.protocol_version,
            old_num: self.old_num,
            new_num: self.new_num,
            ack_num: self.ack_num,
            throwaway_num: self.throwaway_num,
            diff: bytes_view(self.diff),
            chaff: bytes_view(self.chaff),
        }
    }
}

/// The message with no field present.
pub open spec fn blank() -> InstructionView {
    InstructionView {
        protocol_version: None,
        old_num: None,
        new_num: None,
        ack_num: None,
        throwaway_num: None,
        diff: None,
        chaff: None,
    }
}

/// The message that carries `diff` from state `old_num` to state `new_num`.
/// An empty `diff` is left out.
pub open spec fn send_instruction(
    old_num: u64,
    new_num: u64,
    ack_num: u64,
    throwaway_num: u64,
    diff: Seq<u8>,
) -> InstructionView {
    InstructionView {
        protocol_version: Some(2u32),
        old_num: Some(old_num),
        new_num: Some(new_num),
        ack_num: Some(ack_num),
        throwaway_num: Some(throwaway_num),
        diff: if diff.len() == 0 {
            None
        } else {
            Some(diff)
        },
        chaff: None,
    }
}

/// The message that only acknowledges: a heartbeat.
pub open spec fn ack_instruction(ack_num: u64, throwaway_num: u64) -> InstructionView {
    send_instruction(0, 0, ack_num, throwaway_num, Seq::empty())
}

/// A number, or 0 where it is absent.
pub open spec fn or_zero(n: Option<u64>) -> u64 {
    match n {
        Some(v) => v,
        None => 0,
    }
}

/// Whether a message carries a piece of the stream: `diff` is present and
/// not empty.
pub open spec fn carries_diff(i: InstructionView) -> bool {
    i.diff matches Some(d) && d.len() > 0
}

/// The bytes of `diff`, or none where it is absent.
pub open spec fn diff_of(i: InstructionView) -> Seq<u8> {
    match i.diff {
        Some(d) => d,
        None => Seq::empty(),
    }
}

/// The key byte of a field.
pub open spec fn key_byte(tag: nat, wire_type: nat) -> u8
    recommends
        1 <= tag <= 15,
        wire_type <= 5,
{
    (8 * tag + wire_type) as u8
}

/// A number field on the wire: nothing where it is absent.
pub open spec fn number_field(tag: nat, value: Option<u64>) -> Seq<u8> {
    match value {
        Some(v) => seq![key_byte(tag, 0)] + varint(v),
        None => Seq::empty(),
    }
}

/// A bytes field on the wire: nothing where it is absent.
pub open spec fn bytes_field(tag: nat, value: Option<Seq<u8>>) -> Seq<u8> {
    match value {
        Some(b) => seq![key_byte(tag, 2)] + varint(b.len() as u64) + b,
        None => Seq::empty(),
    }
}

/// The protocol version as the 64-bit number that goes on the wire.
pub open spec fn version_number(version: Option<u32>) -> Option<u64> {
    match version {
        Some(v) => Some(v as u64),
        None => None,
    }
}

/// The bytes of a message.
pub open spec fn encoded(i: InstructionView) -> Seq<u8> {
    number_field(1, version_number(i.protocol_version)) + number_field(2, i.old_num)
        + number_field(3, i.new_num) + number_field(4, i.ack_num) + number_field(
        5,
        i.throwaway_num,
    ) + bytes_field(6, i.diff) + bytes_field(7, i.chaff)
}

/// Appends a number field, if it is present.
fn put_number_field(buf: &mut Vec<u8>, tag: u8, value: Option<u64>)
    requires
        1 <= tag <= 15,
    ensures
        final(buf)@ == old(buf)@ + number_field(tag as nat, value),
{
    match value {
        Some(v) => {
            buf.push(8 * tag);
            put_varint(buf, v);
            assert(buf@ =~= old(buf)@ + number_field(tag as nat, value));
        },
        None => {
            assert(buf@ =~= old(buf)@ + number_field(tag as nat, value));
        },
    }
}

/// Appends a bytes field, if it is present.
fn put_bytes_field(buf: &mut Vec<u8>, tag: u8, value: &Option<Vec<u8>>)
    requires
        1 <= tag <= 15,
    ensures
        final(buf)@ == old(buf)@ + bytes_field(tag as nat, bytes_view(*value)),
{
    match value {
        Some(b) => {
            buf.push(8 * tag + 2);
            put_varint(buf, b.len() as u64);
            buf.extend_from_slice(b.as_slice());
            assert(buf@ =~= old(buf)@ + bytes_field(tag as nat, bytes_view(*value)));
        },
        None => {
            assert(buf@ =~= old(buf)@ + bytes_field(tag as nat, bytes_view(*value)));
        },
    }
}

impl Instruction {
    /// A message that carries `diff`. An empty `diff` is left out.
    pub fn new_send(old_num: u64, new_num: u64, ack_num: u64, throwaway_num: u64, diff: Vec<u8>)
        -> (i: Instruction)
        ensures
            i@ == send_instruction(old_num, new_num, ack_num, throwaway_num, diff@),
    {
        Instruction {
            protocol_version: Some(MOSH_PROTOCOL_VERSION),
            old_num: Some(old_num),
            new_num: Some(new_num),
            ack_num: Some(ack_num),
            throwaway_num: Some(throwaway_num),
            diff: if diff.len() == 0 {
                None
            } else {
                Some(diff)
            },
            chaff: None,
        }
    }

    /// A message that only acknowledges.
    pub fn new_ack(ack_num: u64, throwaway_num: u64) -> (i: Instruction)
        ensures
            i@ == ack_instruction(ack_num, throwaway_num),
    {
        Instruction {
            protocol_version: Some(MOSH_PROTOCOL_VERSION),
            old_num: Some(0),
            new_num: Some(0),
            ack_num: Some(ack_num),
            throwaway_num: Some(throwaway_num),
            diff: None,
            chaff: None,
        }
    }

    /// Writes the message as it travels.
    pub fn encode_to_bytes(&self) -> (bytes: Vec<u8>)
        ensures
            bytes@ == encoded(self@),
    {
        let mut buf: Vec<u8> = Vec::new();
        let version: Option<u64> = match self.protocol_version {
            Some(v) => Some(v as u64),
            None => None,
        };
        put_number_field(&mut buf, 1, version);
        put_number_field(&mut buf, 2, self.old_num);
        put_number_field(&mut buf, 3, self.new_num);
        put_number_field(&mut buf, 4, self.ack_num);
        put_number_field(&mut buf, 5, self.throwaway_num);
        put_bytes_field(&mut buf, 6, &self.diff);
        put_bytes_field(&mut buf, 7, &self.chaff);
        assert(buf@ =~= encoded(self@));
        buf
    }

    /// The bytes of `diff`, or none where it is absent.
    pub fn diff_bytes(&self) -> (d: &[u8])
        ensures
            d@ == diff_of(self@),
    {
        match &self.diff {
            Some(d) => d.as_slice(),
            None => &[],
        }
    }

    /// `old_num`, or 0 where it is absent.
    pub fn old_num_or_zero(&self) -> (n: u64)
        ensures
            n == or_zero(self@.old_num),
    {
        match self.old_num {
            Some(v) => v,
            None => 0,
        }
    }

    /// `new_num`, or 0 where it is absent.
    pub fn new_num_or_zero(&self) -> (n: u64)
        ensures
            n == or_zero(self@.new_num),
    {
        match self.new_num {
            Some(v) => v,
            None => 0,
        }
    }

    /// `ack_num`, or 0 where it is absent.
    pub fn ack_num_or_zero(&self) -> (n: u64)
        ensures
            n == or_zero(self@.ack_num),
    {
        match self.ack_num {
            Some(v) => v,
            None => 0,
        }
    }

    /// `throwaway_num`, or 0 where it is absent.
    pub fn throwaway_num_or_zero(&self) -> (n: u64)
        ensures
            n == or_zero(self@.throwaway_num),
    {
        match self.throwaway_num {
            Some(v) => v,
            None => 0,
        }
    }

    /// Whether `diff` is present and not empty.
    pub fn has_diff(&self) -> (b: bool)
        ensures
            b == carries_diff(self@),
    {
        match &self.diff {
            Some(d) => d.len() > 0,
            None => false,
        }
    }
}

} // verus!
