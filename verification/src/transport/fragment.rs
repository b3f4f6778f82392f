//! Fragments: one message split into numbered pieces, and put together
//! again in whatever order the pieces arrive.
//!
//! On the wire a fragment is the identifier of its message (8 bytes), a
//! 16-bit word whose high bit marks the last fragment and whose low 15 bits
//! number it, and the payload; integers are big-endian.

use vstd::prelude::*;
use crate::transport::error::TransportError;
use crate::wire::{
    be16,
    be64,
    from_be16,
    from_be64,
    get_be16,
    get_be64,
    lemma_be16_roundtrip,
    lemma_be64_roundtrip,
    put_be16,
    put_be64,
};

verus! {

/// The bit of the fragment word that marks the last fragment of a message.
pub const FINAL_FLAG: u16 = 0x8000;

/// The bits of the fragment word that number the fragment.
pub const INDEX_MASK: u16 = 0x7FFF;

/// One piece of a message.
#[derive(Debug, Clone)]
pub struct Fragment {
    /// The identifier of the message that this is a piece of.
    pub instruction_id: u64,
    /// The place of this piece, from 0.
    pub fragment_num: u16,
    /// Whether this is the last piece.
    pub is_final: bool,
    /// The bytes of this piece.
    pub payload: Vec<u8>,
}

/// The mathematical content of a `Fragment`.
pub struct FragmentView {
    pub instruction_id: u64,
    pub fragment_num: u16,
    pub is_final: bool,
    pub payload: Seq<u8>,
}

impl View for Fragment {
    type V = FragmentView;

    open spec fn view(&self) -> FragmentView {
        FragmentView {
            instruction_id: self.instruction_id,
            fragment_num: self.fragment_num,
            is_final: self.is_final,
            payload: self.payload@,
        }
    }
}

/// The fragment word: the flag in bit 15 over the low 15 bits of the number.
pub open spec fn frag_word(is_final: bool, fragment_num: u16) -> u16 {
    if is_final {
        (0x8000 + fragment_num % 0x8000) as u16
    } else {
        fragment_num % 0x8000
    }
}

/// The bytes of a fragment on the wire.
pub open spec fn fragment_bytes(f: FragmentView) -> Seq<u8> {
    be64(f.instruction_id) + be16(frag_word(f.is_final, f.fragment_num)) + f.payload
}

/// The fragment that at least ten bytes stand for.
pub open spec fn parse_fragment(bytes: Seq<u8>) -> FragmentView
    recommends
        bytes.len() >= 10,
{
    let word = from_be16(bytes.subrange(8, 10));
    FragmentView {
        instruction_id: from_be64(bytes.subrange(0, 8)),
        fragment_num: word % 0x8000,
        is_final: word >= 0x8000,
        payload: bytes.subrange(10, bytes.len() as int),
    }
}

/// A fragment numbered below 2^15 is read back from its bytes as it was.
pub proof fn lemma_fragment_roundtrip(f: FragmentView)
    requires
        f.fragment_num < 0x8000,
    ensures
        fragment_bytes(f).len() == 10 + f.payload.len(),
        parse_fragment(fragment_bytes(f)) == f,
{
    let bytes = fragment_bytes(f);
    let word = frag_word(f.is_final, f.fragment_num);
    lemma_be64_roundtrip(f.instruction_id);
    lemma_be16_roundtrip(word);
    assert(bytes.subrange(0, 8) =~= be64(f.instruction_id));
    assert(bytes.subrange(8, 10) =~= be16(word));
    assert(bytes.subrange(10, bytes.len() as int) =~= f.payload);
}

impl Fragment {
    /// The length of the fixed part: identifier and fragment word.
    pub const HEADER_LEN: usize = 10;

    /// Reads a fragment from the plaintext of a datagram.
    pub fn from_bytes(bytes: &[u8]) -> (r: Result<Fragment, TransportError>)
        ensures
            bytes.len() < 10 ==> r == Err::<Fragment, TransportError>(TransportError::TooShort),
            bytes.len() >= 10 ==> r is Ok,
            r matches Ok(f) ==> f@ == parse_fragment(bytes@),
    {
        if bytes.len() < 10 {
            return Err(TransportError::TooShort);
        }
        let instruction_id = get_be64(bytes, 0);
        let word = get_be16(bytes, 8);
        assert((word >> 15 == 1) <==> word >= 0x8000u16) by (bit_vector);
        assert(word & 0x7FFF == word % 0x8000u16) by (bit_vector);
        let is_final = (word >> 15) == 1;
        let fragment_num = word & INDEX_MASK;
        let payload = vstd::slice::slice_to_vec(
            vstd::slice::slice_subrange(bytes, 10, bytes.len()),
        );
        Ok(Fragment { instruction_id, fragment_num, is_final, payload })
    }

    /// Writes the fragment as it travels.
    pub fn to_bytes(&self) -> (bytes: Vec<u8>)
        ensures
            bytes@ == fragment_bytes(self@),
    {
        let mut bytes: Vec<u8> = Vec::new();
        put_be64(&mut bytes, self.instruction_id);
        let num = self.fragment_num;
        assert((num & 0x7FFF) | 0x8000 == 0x8000 + num % 0x8000u16 && num & 0x7FFF == num
            % 0x8000u16) by (bit_vector);
        let word: u16 = if self.is_final {
            (num & INDEX_MASK) | FINAL_FLAG
        } else {
            num & INDEX_MASK
        };
        put_be16(&mut bytes, word);
        bytes.extend_from_slice(self.payload.as_slice());
        assert(bytes@ =~= fragment_bytes(self@));
        bytes
    }
}

/// The number of fragments that a message of `len` bytes takes when each
/// holds at most `mtu`: one for the empty message.
pub open spec fn chunk_count(len: nat, mtu: nat) -> nat {
    if len == 0 {
        1
    } else {
        ((len + mtu - 1) / (mtu as int)) as nat
    }
}

/// The bytes of the message that fragment `i` holds.
pub open spec fn chunk(message: Seq<u8>, mtu: nat, i: int) -> Seq<u8> {
    let start = i * mtu;
    let end = if start + mtu < message.len() {
        start + mtu
    } else {
        message.len() as int
    };
    message.subrange(start, end)
}

/// Fragment `i` of a message: numbered `i` modulo 2^16, and final where it
/// is the last.
pub open spec fn fragment_at(instruction_id: u64, message: Seq<u8>, mtu: nat, i: int)
    -> FragmentView {
    FragmentView {
        instruction_id,
        fragment_num: (i % 0x1_0000) as u16,
        is_final: i + 1 == chunk_count(message.len(), mtu),
        payload: chunk(message, mtu, i),
    }
}

/// All fragments of a message, in order.
pub open spec fn fragments_of(instruction_id: u64, message: Seq<u8>, mtu: nat) -> Seq<
    FragmentView,
> {
    Seq::new(chunk_count(message.len(), mtu), |i: int| fragment_at(instruction_id, message, mtu, i))
}

/// The views of a sequence of fragments.
pub open spec fn views(frags: Seq<Fragment>) -> Seq<FragmentView> {
    frags.map_values(|f: Fragment| f@)
}

/// While bytes are left after `i` full fragments, fragment `i` is not past
/// the last; once none are left, `i` fragments are all there are.
pub proof fn lemma_chunk_count(len: nat, mtu: nat, i: nat)
    requires
        mtu > 0,
        len > 0,
    ensures
        i * mtu < len <==> i < chunk_count(len, mtu),
        i * mtu + mtu >= len <==> i + 1 >= chunk_count(len, mtu),
{
    let count = chunk_count(len, mtu);
    let d = mtu as int;
    let n = len + mtu - 1;
    assert(n == d * (n / d) + n % d && 0 <= n % d < d) by (nonlinear_arith)
        requires
            d > 0,
    ;
    assert(count == n / d);
    assert(i * mtu < len <==> i < count) by (nonlinear_arith)
        requires
            n == d * count + n % d,
            0 <= n % d < d,
            n == len + d - 1,
            d == mtu,
            d > 0,
    ;
    assert(i * mtu + mtu >= len <==> i + 1 >= count) by (nonlinear_arith)
        requires
            n == d * count + n % d,
            0 <= n % d < d,
            n == len + d - 1,
            d == mtu,
            d > 0,
    ;
}

/// Splits messages into fragments and numbers the messages.
pub struct Fragmenter {
    next_instruction_id: u64,
    app_payload_mtu: usize,
}

/// The mathematical content of a `Fragmenter`.
pub struct FragmenterView {
    pub next_instruction_id: u64,
    pub mtu: nat,
}

impl View for Fragmenter {
    type V = FragmenterView;

    closed spec fn view(&self) -> FragmenterView {
        FragmenterView {
            next_instruction_id: self.next_instruction_id,
            mtu: self.app_payload_mtu as nat,
        }
    }
}

/// The identifier after `id`, modulo 2^64.
pub open spec fn next_id(id: u64) -> u64 {
    if id == u64::MAX {
        0
    } else {
        (id + 1) as u64
    }
}

impl Fragmenter {
    /// A fragmenter whose fragments hold at most `app_mtu` bytes. The first
    /// message gets the identifier 1.
    pub fn new(app_mtu: usize) -> (f: Fragmenter)
        ensures
            f@ == (FragmenterView { next_instruction_id: 1, mtu: app_mtu as nat }),
    {
        Fragmenter { next_instruction_id: 1, app_payload_mtu: app_mtu }
    }

    /// Splits one message and moves on to the next identifier.
    ///
    /// A fragment size of zero can carry the empty message only.
    pub fn make_fragments(&mut self, instruction_bytes: &[u8]) -> (frags: Vec<Fragment>)
        requires
            instruction_bytes.len() > 0 ==> old(self)@.mtu > 0,
        ensures
            views(frags@) == fragments_of(
                old(self)@.next_instruction_id,
                instruction_bytes@,
                old(self)@.mtu,
            ),
            final(self)@ == (FragmenterView {
                next_instruction_id: next_id(old(self)@.next_instruction_id),
                ..old(self)@
            }),
    {
        let id = self.next_instruction_id;
        self.next_instruction_id = id.wrapping_add(1);
        let mtu = self.app_payload_mtu;
        let len = instruction_bytes.len();
        let ghost message = instruction_bytes@;
        let ghost expected = fragments_of(id, message, mtu as nat);

        let mut frags: Vec<Fragment> = Vec::new();
        if len == 0 {
            frags.push(
                Fragment { instruction_id: id, fragment_num: 0, is_final: true, payload: Vec::new() },
            );
            proof {
                assert(0 * (mtu as nat) == 0) by (nonlinear_arith);
                assert(chunk(message, mtu as nat, 0) =~= Seq::<u8>::empty());
                assert(frags[0]@ == expected[0]);
                assert(views(frags@) =~= expected);
            }
            return frags;
        }
        let mut start: usize = 0;
        let mut num: u16 = 0;
        assert(0 * mtu == 0) by (nonlinear_arith);
        while start < len
            invariant
                mtu > 0,
                len > 0,
                len == instruction_bytes.len(),
                message == instruction_bytes@,
                expected == fragments_of(id, message, mtu as nat),
                start <= len,
                start < len ==> start == frags.len() * mtu,
                start == len ==> frags.len() == chunk_count(len as nat, mtu as nat),
                frags.len() <= chunk_count(len as nat, mtu as nat),
                num == frags.len() % 0x1_0000,
                forall|j: int| 0 <= j < frags.len() ==> (#[trigger] frags[j])@ == expected[j],
            decreases len - start,
        {
            let ghost i = frags.len() as nat;
            proof {
                lemma_chunk_count(len as nat, mtu as nat, i);
                lemma_chunk_count(len as nat, mtu as nat, i + 1);
                assert((i + 1) * mtu == i * mtu + mtu) by (nonlinear_arith);
            }
            let end = if len - start > mtu {
                start + mtu
            } else {
                len
            };
            let payload = vstd::slice::slice_to_vec(
                vstd::slice::slice_subrange(instruction_bytes, start, end),
            );
            let frag = Fragment {
                instruction_id: id,
                fragment_num: num,
                is_final: end == len,
                payload,
            };
            assert(frag@ == expected[i as int]);
            frags.push(frag);
            num = num.wrapping_add(1);
            start = end;
        }
        assert(views(frags@) =~= expected);
        frags
    }

    /// The identifier that the next message will get.
    pub fn current_id(&self) -> (id: u64)
        ensures
            id == self@.next_instruction_id,
    {
        self.next_instruction_id
    }
}

} // verus!
