//! Reading inverts writing: every field of a message survives the wire.

use vstd::prelude::*;
use crate::proto::decode::{decoded, field_at, key_at, merge_at, with_bytes, with_number};
use crate::proto::error::ProtoError;
use crate::proto::instruction::{
    blank,
    bytes_field,
    encoded,
    key_byte,
    number_field,
    version_number,
    InstructionView,
};
use crate::proto::varint::{lemma_varint_len, lemma_varint_roundtrip, varint};

verus! {

/// Whether the byte fields are short enough for their length to be written.
pub open spec fn lengths_fit(i: InstructionView) -> bool {
    &&& i.diff matches Some(d) ==> d.len() <= u64::MAX
    &&& i.chaff matches Some(c) ==> c.len() <= u64::MAX
}

/// The message after a number field that may be absent was read.
pub open spec fn after_number(i: InstructionView, tag: u32, value: Option<u64>)
    -> InstructionView {
    match value {
        Some(v) => with_number(i, tag, v as nat),
        None => i,
    }
}

/// The message after a bytes field that may be absent was read.
pub open spec fn after_bytes(i: InstructionView, tag: u32, value: Option<Seq<u8>>)
    -> InstructionView {
    match value {
        Some(b) => with_bytes(i, tag, b),
        None => i,
    }
}

/// What reading on from `pos` gives: `merge_at`, kept folded in the proofs
/// below.
#[verifier::opaque]
spec fn rest(i: InstructionView, s: Seq<u8>, pos: int) -> Option<InstructionView> {
    merge_at(i, s, pos)
}

/// The message with every field read in the order of the tags.
spec fn all_read(i: InstructionView) -> InstructionView {
    let i1 = after_number(blank(), 1, version_number(i.protocol_version));
    let i2 = after_number(i1, 2, i.old_num);
    let i3 = after_number(i2, 3, i.new_num);
    let i4 = after_number(i3, 4, i.ack_num);
    let i5 = after_number(i4, 5, i.throwaway_num);
    let i6 = after_bytes(i5, 6, i.diff);
    after_bytes(i6, 7, i.chaff)
}

/// Reading every field into the blank message gives the message.
proof fn lemma_all_read(i: InstructionView)
    ensures
        all_read(i) == i,
{
    if let Some(v) = i.protocol_version {
        assert((v as u64 as nat) % 0x1_0000_0000 == v);
    }
}

/// A key byte is read as the tag and type it was made of.
proof fn lemma_key_byte(s: Seq<u8>, pos: int, tag: u32, wire_type: u8)
    requires
        0 <= pos < s.len(),
        1 <= tag <= 15,
        wire_type <= 5,
        s[pos] == key_byte(tag as nat, wire_type as nat),
    ensures
        key_at(s, pos) == Some((tag, wire_type, pos + 1)),
{
    let key = (8 * tag + wire_type) as u64;
    assert(varint(key) =~= seq![key as u8]);
    assert(s.subrange(pos, pos + 1) =~= varint(key));
    lemma_varint_roundtrip(s, pos, key);
}

/// Reading on from a number field is reading on after it, with the number
/// set.
proof fn lemma_number_field_read(
    i: InstructionView,
    s: Seq<u8>,
    pos: int,
    tag: u32,
    value: Option<u64>,
)
    requires
        1 <= tag <= 5,
        0 <= pos,
        pos + number_field(tag as nat, value).len() <= s.len(),
        s.subrange(pos, pos + number_field(tag as nat, value).len()) == number_field(
            tag as nat,
            value,
        ),
    ensures
        rest(i, s, pos) == rest(
            after_number(i, tag, value),
            s,
            pos + number_field(tag as nat, value).len(),
        ),
{
    reveal(rest);
    match value {
        None => {},
        Some(v) => {
            let field = number_field(tag as nat, value);
            let digits = varint(v);
            lemma_varint_len(v);
            assert(field.len() == 1 + digits.len());
            assert(s[pos] == field[0]) by {
                assert(s.subrange(pos, pos + field.len())[0] == s[pos]);
            }
            lemma_key_byte(s, pos, tag, 0);
            assert(s.subrange(pos + 1, pos + 1 + digits.len()) =~= digits) by {
                assert forall|j: int| 0 <= j < digits.len() implies s[pos + 1 + j]
                    == digits[j] by {
                    assert(s.subrange(pos, pos + field.len())[j + 1] == s[pos + 1 + j]);
                    assert(field[j + 1] == digits[j]);
                }
            }
            lemma_varint_roundtrip(s, pos + 1, v);
            assert(field_at(i, tag, 0, s, pos + 1) == Some(
                (with_number(i, tag, v as nat), pos + field.len()),
            ));
        },
    }
}

/// Reading on from a bytes field is reading on after it, with the bytes
/// set.
proof fn lemma_bytes_field_read(
    i: InstructionView,
    s: Seq<u8>,
    pos: int,
    tag: u32,
    value: Option<Seq<u8>>,
)
    requires
        tag == 6 || tag == 7,
        0 <= pos,
        value matches Some(b) ==> b.len() <= u64::MAX,
        pos + bytes_field(tag as nat, value).len() <= s.len(),
        s.subrange(pos, pos + bytes_field(tag as nat, value).len()) == bytes_field(
            tag as nat,
            value,
        ),
    ensures
        rest(i, s, pos) == rest(
            after_bytes(i, tag, value),
            s,
            pos + bytes_field(tag as nat, value).len(),
        ),
{
    reveal(rest);
    match value {
        None => {},
        Some(b) => {
            let field = bytes_field(tag as nat, value);
            let n = b.len() as u64;
            let digits = varint(n);
            lemma_varint_len(n);
            assert(field.len() == 1 + digits.len() + b.len());
            assert(s[pos] == field[0]) by {
                assert(s.subrange(pos, pos + field.len())[0] == s[pos]);
            }
            lemma_key_byte(s, pos, tag, 2);
            assert(s.subrange(pos + 1, pos + 1 + digits.len()) =~= digits) by {
                assert forall|j: int| 0 <= j < digits.len() implies s[pos + 1 + j]
                    == digits[j] by {
                    assert(s.subrange(pos, pos + field.len())[j + 1] == s[pos + 1 + j]);
                    assert(field[j + 1] == digits[j]);
                }
            }
            lemma_varint_roundtrip(s, pos + 1, n);
            let start = pos + 1 + digits.len();
            assert(s.subrange(start, start + n) =~= b) by {
                assert forall|j: int| 0 <= j < b.len() implies s[start + j] == b[j] by {
                    assert(s.subrange(pos, pos + field.len())[1 + digits.len() + j] == s[start
                        + j]);
                    assert(field[1 + digits.len() + j] == b[j]);
                }
            }
            assert(field_at(i, tag, 2, s, pos + 1) == Some(
                (with_bytes(i, tag, b), pos + field.len()),
            ));
        },
    }
}

/// Each of seven parts stands in their concatenation where the parts before
/// it end.
proof fn lemma_seven_parts(
    a: Seq<u8>,
    b: Seq<u8>,
    c: Seq<u8>,
    d: Seq<u8>,
    e: Seq<u8>,
    f: Seq<u8>,
    g: Seq<u8>,
)
    ensures
        ({
            let s = a + b + c + d + e + f + g;
            let at1 = a.len() as int;
            let at2 = at1 + b.len();
            let at3 = at2 + c.len();
            let at4 = at3 + d.len();
            let at5 = at4 + e.len();
            let at6 = at5 + f.len();
            let at7 = at6 + g.len();
            &&& s.len() == at7
            &&& s.subrange(0, at1) == a
            &&& s.subrange(at1, at2) == b
            &&& s.subrange(at2, at3) == c
            &&& s.subrange(at3, at4) == d
            &&& s.subrange(at4, at5) == e
            &&& s.subrange(at5, at6) == f
            &&& s.subrange(at6, at7) == g
        }),
{
    let s = a + b + c + d + e + f + g;
    let at1 = a.len() as int;
    let at2 = at1 + b.len();
    let at3 = at2 + c.len();
    let at4 = at3 + d.len();
    let at5 = at4 + e.len();
    let at6 = at5 + f.len();
    let at7 = at6 + g.len();
    assert(s.subrange(0, at1) =~= a);
    assert(s.subrange(at1, at2) =~= b);
    assert(s.subrange(at2, at3) =~= c);
    assert(s.subrange(at3, at4) =~= d);
    assert(s.subrange(at4, at5) =~= e);
    assert(s.subrange(at5, at6) =~= f);
    assert(s.subrange(at6, at7) =~= g);
}

/// Decoding inverts encoding: the bytes of a message are read as that
/// message, field by field. Where the message names a protocol version
/// other than 2, that version is what the reader refuses.
pub proof fn lemma_decode_inverts_encode(i: InstructionView)
    requires
        lengths_fit(i),
    ensures
        merge_at(blank(), encoded(i), 0) == Some(i),
        decoded(encoded(i)) == match i.protocol_version {
            Some(v) => if v != 2 {
                Err::<InstructionView, ProtoError>(ProtoError::InvalidProtocolVersion(v))
            } else {
                Ok::<InstructionView, ProtoError>(i)
            },
            None => Ok::<InstructionView, ProtoError>(i),
        },
{
    let s = encoded(i);
    let f1 = number_field(1, version_number(i.protocol_version));
    let f2 = number_field(2, i.old_num);
    let f3 = number_field(3, i.new_num);
    let f4 = number_field(4, i.ack_num);
    let f5 = number_field(5, i.throwaway_num);
    let f6 = bytes_field(6, i.diff);
    let f7 = bytes_field(7, i.chaff);
    let at1 = f1.len() as int;
    let at2 = at1 + f2.len();
    let at3 = at2 + f3.len();
    let at4 = at3 + f4.len();
    let at5 = at4 + f5.len();
    let at6 = at5 + f6.len();
    let at7 = at6 + f7.len();
    lemma_seven_parts(f1, f2, f3, f4, f5, f6, f7);
    let i0 = blank();
    let i1 = after_number(i0, 1, version_number(i.protocol_version));
    let i2 = after_number(i1, 2, i.old_num);
    let i3 = after_number(i2, 3, i.new_num);
    let i4 = after_number(i3, 4, i.ack_num);
    let i5 = after_number(i4, 5, i.throwaway_num);
    let i6 = after_bytes(i5, 6, i.diff);
    let i7 = after_bytes(i6, 7, i.chaff);
    lemma_number_field_read(i0, s, 0, 1, version_number(i.protocol_version));
    lemma_number_field_read(i1, s, at1, 2, i.old_num);
    lemma_number_field_read(i2, s, at2, 3, i.new_num);
    lemma_number_field_read(i3, s, at3, 4, i.ack_num);
    lemma_number_field_read(i4, s, at4, 5, i.throwaway_num);
    lemma_bytes_field_read(i5, s, at5, 6, i.diff);
    lemma_bytes_field_read(i6, s, at6, 7, i.chaff);
    assert(rest(i0, s, 0) == rest(i7, s, at7));
    assert(i7 == all_read(i));
    lemma_all_read(i);
    assert(rest(i, s, at7) == Some(i) && rest(i0, s, 0) == merge_at(i0, s, 0)) by {
        reveal(rest);
    }
}

} // verus!
