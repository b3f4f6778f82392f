//! Variable-length integers: seven bits to a byte, least significant group
//! first, the high bit of a byte saying that another follows.

use vstd::prelude::*;

verus! {

/// The most bytes that a 64-bit number takes.
pub const MAX_VARINT_LEN: usize = 10;

/// The bytes of a number.
pub open spec fn varint(v: u64) -> Seq<u8>
    decreases v,
{
    if v < 0x80 {
        seq![v as u8]
    } else {
        seq![(v % 0x80 + 0x80) as u8] + varint(v / 0x80)
    }
}

/// One more than the largest number that can start at byte `k` of a
/// variable-length integer: the tenth byte may only be 0 or 1, and each byte
/// before it carries seven bits more.
pub open spec fn varint_room(k: nat) -> nat {
    if k == 0 {
        0x1_0000_0000_0000_0000
    } else if k == 1 {
        0x200_0000_0000_0000
    } else if k == 2 {
        0x4_0000_0000_0000
    } else if k == 3 {
        0x800_0000_0000
    } else if k == 4 {
        0x10_0000_0000
    } else if k == 5 {
        0x2000_0000
    } else if k == 6 {
        0x40_0000
    } else if k == 7 {
        0x8000
    } else if k == 8 {
        0x100
    } else {
        2
    }
}

/// The number that the bytes of `s` from `pos + k` on stand for, read as
/// bytes `k` and following of a variable-length integer that starts at
/// `pos`, and the position after its last byte. `None` where the bytes end
/// before the integer does, or where it does not fit in 64 bits.
pub open spec fn varint_tail(s: Seq<u8>, pos: int, k: nat) -> Option<(nat, int)>
    decreases 10 - k,
{
    if k >= 10 || pos + k >= s.len() || pos < 0 {
        None
    } else {
        let b = s[pos + k];
        if b < 0x80 {
            if k == 9 && b >= 2 {
                None
            } else {
                Some((b as nat, pos + k + 1))
            }
        } else {
            match varint_tail(s, pos, k + 1) {
                None => None,
                Some((rest, end)) => Some(((b - 0x80 + 0x80 * rest) as nat, end)),
            }
        }
    }
}

/// The variable-length integer that starts at `pos`, and the position after
/// it.
pub open spec fn varint_at(s: Seq<u8>, pos: int) -> Option<(nat, int)> {
    varint_tail(s, pos, 0)
}

/// What is read fits the room that is left for it, and ends after at least
/// one byte and within the bytes.
pub proof fn lemma_varint_tail_bounds(s: Seq<u8>, pos: int, k: nat)
    ensures
        varint_tail(s, pos, k) matches Some((v, end)) ==> v < varint_room(k) && pos + k < end
            <= s.len() && end <= pos + 10,
    decreases 10 - k,
{
    if k < 10 && pos + k < s.len() && pos >= 0 && s[pos + k] >= 0x80 {
        lemma_varint_tail_bounds(s, pos, k + 1);
    }
}

/// The length of the bytes of a number: between 1 and 10.
pub proof fn lemma_varint_len(v: u64)
    ensures
        1 <= varint(v).len() <= 10,
{
    lemma_varint_len_room(v, 0);
}

proof fn lemma_varint_len_room(v: u64, k: nat)
    requires
        k <= 9,
        v < varint_room(k),
    ensures
        1 <= varint(v).len() <= 10 - k,
    decreases v,
{
    if v >= 0x80 {
        lemma_varint_len_room((v / 0x80) as u64, k + 1);
    }
}

/// A number is read back from its bytes, wherever they stand.
pub proof fn lemma_varint_roundtrip(s: Seq<u8>, pos: int, v: u64)
    requires
        0 <= pos,
        pos + varint(v).len() <= s.len(),
        s.subrange(pos, pos + varint(v).len()) == varint(v),
    ensures
        varint_at(s, pos) == Some((v as nat, pos + varint(v).len())),
{
    lemma_varint_roundtrip_tail(s, pos, v, 0);
}

proof fn lemma_varint_roundtrip_tail(s: Seq<u8>, pos: int, v: u64, k: nat)
    requires
        0 <= pos,
        k <= 9,
        v < varint_room(k),
        pos + k + varint(v).len() <= s.len(),
        s.subrange(pos + k, pos + k + varint(v).len()) == varint(v),
    ensures
        varint_tail(s, pos, k) == Some((v as nat, pos + k + varint(v).len())),
    decreases v,
{
    let bytes = varint(v);
    assert(s[pos + k] == bytes[0]) by {
        assert(s.subrange(pos + k, pos + k + bytes.len())[0] == s[pos + k]);
    }
    if v >= 0x80 {
        let rest = (v / 0x80) as u64;
        let tail = varint(rest);
        assert(bytes.len() == 1 + tail.len());
        assert(s.subrange(pos + k + 1, pos + k + 1 + tail.len()) =~= tail) by {
            assert forall|i: int| 0 <= i < tail.len() implies s[pos + k + 1 + i] == tail[i] by {
                assert(s.subrange(pos + k, pos + k + bytes.len())[i + 1] == s[pos + k + 1 + i]);
                assert(bytes[i + 1] == tail[i]);
            }
        }
        lemma_varint_roundtrip_tail(s, pos, rest, k + 1);
    }
}

/// Appends the bytes of a number to `buf`.
pub fn put_varint(buf: &mut Vec<u8>, value: u64)
    ensures
        final(buf)@ == old(buf)@ + varint(value),
{
    let mut v: u64 = value;
    while v >= 0x80
        invariant
            old(buf)@ + varint(value) == buf@ + varint(v),
        decreases v,
    {
        assert(((v & 0x7F) | 0x80) as u8 == (v % 0x80 + 0x80) as u8 && v >> 7 == v / 0x80)
            by (bit_vector);
        let ghost before = buf@;
        buf.push(((v & 0x7F) | 0x80) as u8);
        assert(before + varint(v) =~= buf@ + varint((v / 0x80) as u64));
        v = v >> 7;
    }
    let ghost before = buf@;
    buf.push(v as u8);
    assert(before + varint(v) =~= buf@);
}

/// Reads bytes `k` and following of the variable-length integer that starts
/// at `pos`.
fn get_varint_tail(bytes: &[u8], pos: usize, k: usize) -> (r: Option<(u64, usize)>)
    requires
        pos <= bytes.len(),
    ensures
        match r {
            Some((v, end)) => varint_tail(bytes@, pos as int, k as nat) == Some(
                (v as nat, end as int),
            ),
            None => varint_tail(bytes@, pos as int, k as nat) is None,
        },
    decreases 10 - k,
{
    if k >= MAX_VARINT_LEN || k >= bytes.len() - pos {
        return None;
    }
    let b = bytes[pos + k];
    if b < 0x80 {
        if k == 9 && b >= 2 {
            None
        } else {
            Some((b as u64, pos + k + 1))
        }
    } else {
        match get_varint_tail(bytes, pos, k + 1) {
            None => None,
            Some((rest, end)) => {
                proof {
                    lemma_varint_tail_bounds(bytes@, pos as int, (k + 1) as nat);
                }
                Some(((b - 0x80) as u64 + 0x80 * rest, end))
            },
        }
    }
}

/// Reads the variable-length integer that starts at `pos`, and gives the
/// position after it.
pub fn get_varint(bytes: &[u8], pos: usize) -> (r: Option<(u64, usize)>)
    requires
        pos <= bytes.len(),
    ensures
        match r {
            Some((v, end)) => varint_at(bytes@, pos as int) == Some((v as nat, end as int))
                && pos < end <= bytes.len(),
            None => varint_at(bytes@, pos as int) is None,
        },
{
    proof {
        lemma_varint_tail_bounds(bytes@, pos as int, 0);
    }
    get_varint_tail(bytes, pos, 0)
}

} // verus!
