//! Reading a message from its bytes.
//!
//! The bytes are a run of fields. A field of a known tag must have the wire
//! type of that tag; where a tag comes twice the later value stays. A field
//! of an unknown tag is passed over, whatever its type; groups may nest up
//! to a fixed depth.

use vstd::prelude::*;
use crate::proto::error::ProtoError;
use crate::proto::instruction::{blank, Instruction, InstructionView, MOSH_PROTOCOL_VERSION};
use crate::proto::varint::{get_varint, varint_at};

verus! {

/// Wire type 0: a variable-length integer.
pub const WIRE_VARINT: u8 = 0;

/// Wire type 1: eight bytes.
pub const WIRE_FIXED64: u8 = 1;

/// Wire type 2: a length, then that many bytes.
pub const WIRE_BYTES: u8 = 2;

/// Wire type 3: the start of a group.
pub const WIRE_START_GROUP: u8 = 3;

/// Wire type 4: the end of a group.
pub const WIRE_END_GROUP: u8 = 4;

/// Wire type 5: four bytes.
pub const WIRE_FIXED32: u8 = 5;

/// How deep fields may nest before the bytes are refused.
pub const RECURSION_LIMIT: u32 = 100;

/// The key that starts at `pos`: tag, wire type, and the position after it.
/// The key must fit in 32 bits, its type must be one of the six, and its
/// tag must not be 0.
pub open spec fn key_at(s: Seq<u8>, pos: int) -> Option<(u32, u8, int)> {
    match varint_at(s, pos) {
        None => None,
        Some((key, end)) => if key > 0xFFFF_FFFF || key % 8 > 5 || key / 8 < 1 {
            None
        } else {
            Some(((key / 8) as u32, (key % 8) as u8, end))
        },
    }
}

/// The position after the value of a field that is passed over. `budget`
/// is the depth of nesting that is still allowed.
pub open spec fn skip_at(s: Seq<u8>, pos: int, wire_type: u8, tag: u32, budget: nat) -> Option<
    int,
>
    decreases s.len() - pos, 1nat,
{
    if budget == 0 || pos < 0 || pos > s.len() {
        None
    } else if wire_type == 0 {
        match varint_at(s, pos) {
            None => None,
            Some((_, end)) => Some(end),
        }
    } else if wire_type == 1 {
        if 8 <= s.len() - pos {
            Some(pos + 8)
        } else {
            None
        }
    } else if wire_type == 2 {
        match varint_at(s, pos) {
            None => None,
            Some((n, start)) => if n <= s.len() - start {
                Some(start + n)
            } else {
                None
            },
        }
    } else if wire_type == 3 {
        skip_group_at(s, pos, tag, budget)
    } else if wire_type == 5 {
        if 4 <= s.len() - pos {
            Some(pos + 4)
        } else {
            None
        }
    } else {
        None
    }
}

/// The position after the end of the group `tag` whose fields start at
/// `pos`: fields are passed over until the end key of this group comes.
pub open spec fn skip_group_at(s: Seq<u8>, pos: int, tag: u32, budget: nat) -> Option<int>
    decreases s.len() - pos, 0nat,
{
    if budget == 0 || pos < 0 || pos >= s.len() {
        None
    } else {
        match key_at(s, pos) {
            None => None,
            Some((inner_tag, inner_type, after_key)) => if after_key <= pos || after_key
                > s.len() {
                None
            } else if inner_type == 4 {
                if inner_tag == tag {
                    Some(after_key)
                } else {
                    None
                }
            } else {
                match skip_at(s, after_key, inner_type, inner_tag, (budget - 1) as nat) {
                    None => None,
                    Some(next) => if next <= pos || next > s.len() {
                        None
                    } else {
                        skip_group_at(s, next, tag, budget)
                    },
                }
            },
        }
    }
}

/// The message with the number of tag 1 to 5 set. The protocol version
/// keeps the low 32 bits.
pub open spec fn with_number(i: InstructionView, tag: u32, v: nat) -> InstructionView {
    if tag == 1 {
        InstructionView { protocol_version: Some((v % 0x1_0000_0000) as u32), ..i }
    } else if tag == 2 {
        InstructionView { old_num: Some(v as u64), ..i }
    } else if tag == 3 {
        InstructionView { new_num: Some(v as u64), ..i }
    } else if tag == 4 {
        InstructionView { ack_num: Some(v as u64), ..i }
    } else {
        InstructionView { throwaway_num: Some(v as u64), ..i }
    }
}

/// The message with the bytes of tag 6 or 7 set.
pub open spec fn with_bytes(i: InstructionView, tag: u32, b: Seq<u8>) -> InstructionView {
    if tag == 6 {
        InstructionView { diff: Some(b), ..i }
    } else {
        InstructionView { chaff: Some(b), ..i }
    }
}

/// The message after the value of one field was read, and the position
/// after that value.
pub open spec fn field_at(i: InstructionView, tag: u32, wire_type: u8, s: Seq<u8>, pos: int)
    -> Option<(InstructionView, int)> {
    if 1 <= tag <= 5 {
        if wire_type != 0 {
            None
        } else {
            match varint_at(s, pos) {
                None => None,
                Some((v, end)) => Some((with_number(i, tag, v), end)),
            }
        }
    } else if tag == 6 || tag == 7 {
        if wire_type != 2 {
            None
        } else {
            match varint_at(s, pos) {
                None => None,
                Some((n, start)) => if n <= s.len() - start {
                    Some((with_bytes(i, tag, s.subrange(start, start + n)), start + n))
                } else {
                    None
                },
            }
        }
    } else {
        match skip_at(s, pos, wire_type, tag, 100) {
            None => None,
            Some(end) => Some((i, end)),
        }
    }
}

/// The message after every field from `pos` on was read into `i`.
pub open spec fn merge_at(i: InstructionView, s: Seq<u8>, pos: int) -> Option<InstructionView>
    decreases s.len() - pos,
{
    if pos >= s.len() || pos < 0 {
        Some(i)
    } else {
        match key_at(s, pos) {
            None => None,
            Some((tag, wire_type, after_key)) => match field_at(i, tag, wire_type, s, after_key) {
                None => None,
                Some((next, end)) => if end <= pos || end > s.len() {
                    None
                } else {
                    merge_at(next, s, end)
                },
            },
        }
    }
}

/// What bytes stand for: a message whose protocol version, where it is
/// present, is 2.
pub open spec fn decoded(s: Seq<u8>) -> Result<InstructionView, ProtoError> {
    match merge_at(blank(), s, 0) {
        None => Err(ProtoError::DecodeFailed),
        Some(i) => match i.protocol_version {
            Some(v) => if v != 2 {
                Err(ProtoError::InvalidProtocolVersion(v))
            } else {
                Ok(i)
            },
            None => Ok(i),
        },
    }
}

/// Reads the key that starts at `pos`.
fn get_key(bytes: &[u8], pos: usize) -> (r: Option<(u32, u8, usize)>)
    requires
        pos <= bytes.len(),
    ensures
        match r {
            Some((tag, wire_type, end)) => key_at(bytes@, pos as int) == Some(
                (tag, wire_type, end as int),
            ) && pos < end <= bytes.len(),
            None => key_at(bytes@, pos as int) is None,
        },
{
    match get_varint(bytes, pos) {
        None => None,
        Some((key, end)) => {
            if key > 0xFFFF_FFFF || key % 8 > 5 || key / 8 < 1 {
                None
            } else {
                Some(((key / 8) as u32, (key % 8) as u8, end))
            }
        },
    }
}

/// Passes over the value of a field.
fn skip_field(bytes: &[u8], pos: usize, wire_type: u8, tag: u32, budget: u32) -> (r: Option<
    usize,
>)
    requires
        pos <= bytes.len(),
    ensures
        match r {
            Some(end) => skip_at(bytes@, pos as int, wire_type, tag, budget as nat) == Some(
                end as int,
            ) && pos <= end <= bytes.len(),
            None => skip_at(bytes@, pos as int, wire_type, tag, budget as nat) is None,
        },
    decreases bytes.len() - pos,
{
    let len = bytes.len();
    if budget == 0 {
        return None;
    }
    if wire_type == WIRE_VARINT {
        match get_varint(bytes, pos) {
            None => None,
            Some((_, end)) => Some(end),
        }
    } else if wire_type == WIRE_FIXED64 {
        if 8 <= len - pos {
            Some(pos + 8)
        } else {
            None
        }
    } else if wire_type == WIRE_BYTES {
        match get_varint(bytes, pos) {
            None => None,
            Some((n, start)) => {
                if n <= (len - start) as u64 {
                    Some(start + n as usize)
                } else {
                    None
                }
            },
        }
    } else if wire_type == WIRE_START_GROUP {
        let mut cur: usize = pos;
        loop
            invariant
                pos <= cur <= bytes.len(),
                len == bytes.len(),
                budget > 0,
                skip_at(bytes@, pos as int, wire_type, tag, budget as nat) == skip_group_at(
                    bytes@,
                    cur as int,
                    tag,
                    budget as nat,
                ),
            decreases len - cur,
        {
            if cur >= len {
                return None;
            }
            let (inner_tag, inner_type, after_key) = match get_key(bytes, cur) {
                None => { return None; },
                Some(k) => k,
            };
            if inner_type == WIRE_END_GROUP {
                if inner_tag == tag {
                    return Some(after_key);
                } else {
                    return None;
                }
            }
            match skip_field(bytes, after_key, inner_type, inner_tag, budget - 1) {
                None => { return None; },
                Some(next) => {
                    cur = next;
                },
            }
        }
    } else if wire_type == WIRE_FIXED32 {
        if 4 <= len - pos {
            Some(pos + 4)
        } else {
            None
        }
    } else {
        None
    }
}

impl Instruction {
    /// Reads a message from its bytes.
    ///
    /// `DecodeFailed` where the bytes are no run of well-formed fields;
    /// `InvalidProtocolVersion` where they are, and name a version other
    /// than 2.
    pub fn decode_from_bytes(bytes: &[u8]) -> (r: Result<Instruction, ProtoError>)
        ensures
            match r {
                Ok(i) => decoded(bytes@) == Ok::<InstructionView, ProtoError>(i@),
                Err(e) => decoded(bytes@) == Err::<InstructionView, ProtoError>(e),
            },
    {
        let len = bytes.len();
        let mut instr = Instruction {
            protocol_version: None,
            old_num: None,
            new_num: None,
            ack_num: None,
            throwaway_num: None,
            diff: None,
            chaff: None,
        };
        let mut pos: usize = 0;
        while pos < len
            invariant
                pos <= len,
                len == bytes.len(),
                merge_at(blank(), bytes@, 0) == merge_at(instr@, bytes@, pos as int),
            decreases len - pos,
        {
            let (tag, wire_type, after_key) = match get_key(bytes, pos) {
                None => { return Err(ProtoError::DecodeFailed); },
                Some(k) => k,
            };
            if 1 <= tag && tag <= 5 {
                if wire_type != WIRE_VARINT {
                    return Err(ProtoError::DecodeFailed);
                }
                let (v, end) = match get_varint(bytes, after_key) {
                    None => { return Err(ProtoError::DecodeFailed); },
                    Some(x) => x,
                };
                if tag == 1 {
                    assert(v as u32 == v % 0x1_0000_0000) by (bit_vector);
                    instr.protocol_version = Some(v as u32);
                } else if tag == 2 {
                    instr.old_num = Some(v);
                } else if tag == 3 {
                    instr.new_num = Some(v);
                } else if tag == 4 {
                    instr.ack_num = Some(v);
                } else {
                    instr.throwaway_num = Some(v);
                }
                pos = end;
            } else if tag == 6 || tag == 7 {
                if wire_type != WIRE_BYTES {
                    return Err(ProtoError::DecodeFailed);
                }
                let (n, start) = match get_varint(bytes, after_key) {
                    None => { return Err(ProtoError::DecodeFailed); },
                    Some(x) => x,
                };
                if n > (len - start) as u64 {
                    return Err(ProtoError::DecodeFailed);
                }
                let end = start + n as usize;
                let value = vstd::slice::slice_to_vec(
                    vstd::slice::slice_subrange(bytes, start, end),
                );
                if tag == 6 {
                    instr.diff = Some(value);
                } else {
                    instr.chaff = Some(value);
                }
                pos = end;
            } else {
                match skip_field(bytes, after_key, wire_type, tag, RECURSION_LIMIT) {
                    None => { return Err(ProtoError::DecodeFailed); },
                    Some(end) => {
                        pos = end;
                    },
                }
            }
        }
        match instr.protocol_version {
            Some(v) => {
                if v != MOSH_PROTOCOL_VERSION {
                    return Err(ProtoError::InvalidProtocolVersion(v));
                }
            },
            None => {},
        }
        Ok(instr)
    }
}

} // verus!
