//! What splitting and reassembly promise each other.

use vstd::prelude::*;
use crate::transport::assembly::{
    accept,
    complete,
    empty_assembly,
    feed,
    joined,
    output,
    reset_for,
    AssemblyView,
};
use crate::transport::fragment::{
    chunk,
    chunk_count,
    fragment_at,
    fragments_of,
    lemma_chunk_count,
    FragmentView,
};

verus! {

/// Whether `order` names each of the indices `0..count` exactly once.
pub open spec fn is_permutation(order: Seq<int>, count: nat) -> bool {
    &&& order.len() == count
    &&& forall|a: int| 0 <= a < count ==> 0 <= #[trigger] order[a] < count
    &&& forall|a: int, b: int| 0 <= a < b < count ==> order[a] != order[b]
    &&& forall|i: int| 0 <= i < count ==> named_before(order, count as int, i)
}

/// Whether index `i` is among the first `n` that `order` names.
pub open spec fn named_before(order: Seq<int>, n: int, i: int) -> bool {
    exists|a: int| 0 <= a < n && #[trigger] order[a] == i
}

/// The fragments in the order in which `order` names them.
pub open spec fn in_order(frags: Seq<FragmentView>, order: Seq<int>) -> Seq<FragmentView> {
    Seq::new(order.len(), |a: int| frags[order[a]])
}

/// A fragment of another message than the current one is taken in as by an
/// assembly that has seen nothing: what was kept is discarded first.
pub proof fn lemma_other_message_discards(s: AssemblyView, f: FragmentView)
    requires
        s.current_id != Some(f.instruction_id),
    ensures
        reset_for(s, f.instruction_id) == reset_for(empty_assembly(), f.instruction_id),
        accept(s, f) == accept(empty_assembly(), f),
{
}

/// The payloads of the first `j` fragments of a message, joined, are the
/// message up to the end of fragment `j - 1`.
proof fn lemma_joined_prefix(arrived: Map<u16, Seq<u8>>, message: Seq<u8>, mtu: nat, j: nat)
    requires
        mtu > 0,
        j <= chunk_count(message.len(), mtu) <= 0x1_0000,
        forall|i: int| 0 <= i < j ==> arrived[i as u16] == #[trigger] chunk(message, mtu, i),
    ensures
        joined(arrived, j) == message.subrange(
            0,
            if j * mtu < message.len() {
                (j * mtu) as int
            } else {
                message.len() as int
            },
        ),
    decreases j,
{
    if j == 0 {
        assert(0 * mtu == 0) by (nonlinear_arith);
        assert(joined(arrived, 0) =~= message.subrange(0, 0));
    } else {
        let i = (j - 1) as nat;
        lemma_joined_prefix(arrived, message, mtu, i);
        assert(j * mtu == i * mtu + mtu) by (nonlinear_arith)
            requires
                j == i + 1,
        ;
        assert(i * mtu >= 0) by (nonlinear_arith);
        if message.len() > 0 {
            lemma_chunk_count(message.len(), mtu, i);
        } else {
            assert(i * mtu == 0) by (nonlinear_arith)
                requires
                    i == 0,
            ;
        }
        assert(arrived[i as u16] == chunk(message, mtu, i as int));
        assert(joined(arrived, j) =~= message.subrange(
            0,
            if j * mtu < message.len() {
                (j * mtu) as int
            } else {
                message.len() as int
            },
        ));
    }
}

/// What an assembly holds after the first `n` fragments of a message came,
/// in the order that `order` names, for `n` at least 1.
spec fn holds_first(
    s: AssemblyView,
    id: u64,
    message: Seq<u8>,
    mtu: nat,
    order: Seq<int>,
    n: int,
) -> bool {
    let count = chunk_count(message.len(), mtu) as int;
    &&& s.current_id == Some(id)
    &&& forall|num: u16| #[trigger]
        s.arrived.contains_key(num) <==> num < count && named_before(order, n, num as int)
    &&& forall|num: u16| #[trigger]
        s.arrived.contains_key(num) ==> s.arrived[num] == chunk(message, mtu, num as int)
    &&& s.final_num == if named_before(order, n, count - 1) {
        Some((count - 1) as u16)
    } else {
        None
    }
}

proof fn lemma_holds_first(
    s0: AssemblyView,
    id: u64,
    message: Seq<u8>,
    mtu: nat,
    order: Seq<int>,
    n: int,
)
    requires
        mtu > 0,
        chunk_count(message.len(), mtu) <= 0x1_0000,
        is_permutation(order, chunk_count(message.len(), mtu)),
        s0.current_id != Some(id),
        1 <= n <= order.len(),
    ensures
        holds_first(
            feed(s0, in_order(fragments_of(id, message, mtu), order).take(n)),
            id,
            message,
            mtu,
            order,
            n,
        ),
    decreases n,
{
    let count = chunk_count(message.len(), mtu) as int;
    let frags = fragments_of(id, message, mtu);
    let fed = in_order(frags, order);
    let prefix = fed.take(n);
    assert(prefix.drop_last() =~= fed.take(n - 1));
    let f = prefix.last();
    let i = order[n - 1];
    assert(f == fragment_at(id, message, mtu, i));
    assert(f.fragment_num == i as u16);
    let before = feed(s0, fed.take(n - 1));
    let after = feed(s0, prefix);
    assert(after == accept(before, f));
    if n == 1 {
        assert(fed.take(0) =~= Seq::<FragmentView>::empty());
        assert(before == s0);
        assert forall|num: u16| #[trigger]
            after.arrived.contains_key(num) <==> num < count && named_before(
                order,
                n,
                num as int,
            ) by {
            if num as int == i {
                assert(order[0] == num as int);
            }
        }
        assert(named_before(order, n, count - 1) <==> i == count - 1) by {
            if i == count - 1 {
                assert(order[0] == count - 1);
            }
        }
    } else {
        lemma_holds_first(s0, id, message, mtu, order, n - 1);
        assert forall|num: u16| #[trigger]
            after.arrived.contains_key(num) <==> num < count && named_before(
                order,
                n,
                num as int,
            ) by {
            if num as int == i {
                assert(order[n - 1] == num as int);
            }
            if before.arrived.contains_key(num) {
                let a = choose|a: int| 0 <= a < n - 1 && #[trigger] order[a] == num as int;
                assert(0 <= a < n && order[a] == num as int);
            }
            if num < count && named_before(order, n, num as int) {
                let a = choose|a: int| 0 <= a < n && #[trigger] order[a] == num as int;
                if a < n - 1 {
                    assert(named_before(order, n - 1, num as int));
                }
            }
        }
        assert(named_before(order, n, count - 1) <==> (i == count - 1 || named_before(
            order,
            n - 1,
            count - 1,
        ))) by {
            if i == count - 1 {
                assert(order[n - 1] == count - 1);
            }
            if named_before(order, n - 1, count - 1) {
                let a = choose|a: int| 0 <= a < n - 1 && #[trigger] order[a] == count - 1;
                assert(0 <= a < n && order[a] == count - 1);
            }
            if named_before(order, n, count - 1) {
                let a = choose|a: int| 0 <= a < n && #[trigger] order[a] == count - 1;
                if a < n - 1 {
                    assert(named_before(order, n - 1, count - 1));
                }
            }
        }
    }
}

/// Reassembly inverts splitting, in whatever order the fragments come.
///
/// Take a message of at most 2^16 fragments of at most `mtu` bytes each, and
/// an assembly that is not in the middle of this very message. Feed it the
/// fragments in any order that names each once: nothing comes out before
/// the last of them, and with the last the message comes out.
pub proof fn lemma_reassembly_inverts_splitting(
    s0: AssemblyView,
    id: u64,
    message: Seq<u8>,
    mtu: nat,
    order: Seq<int>,
)
    requires
        mtu > 0,
        chunk_count(message.len(), mtu) <= 0x1_0000,
        is_permutation(order, chunk_count(message.len(), mtu)),
        s0.current_id != Some(id),
    ensures
        output(feed(s0, in_order(fragments_of(id, message, mtu), order))) == Some(message),
        forall|n: int|
            1 <= n < order.len() ==> output(
                #[trigger] feed(s0, in_order(fragments_of(id, message, mtu), order).take(n)),
            ) is None,
{
    let count = chunk_count(message.len(), mtu) as int;
    let fed = in_order(fragments_of(id, message, mtu), order);
    assert(count >= 1) by {
        if message.len() > 0 {
            lemma_chunk_count(message.len(), mtu, 0);
            assert(0 * mtu == 0) by (nonlinear_arith);
        }
    }
    assert forall|n: int| 1 <= n < order.len() implies output(#[trigger] feed(s0, fed.take(n)))
        is None by {
        lemma_holds_first(s0, id, message, mtu, order, n);
        let s = feed(s0, fed.take(n));
        let missing = order[n];
        if named_before(order, n, missing) {
            let a = choose|a: int| 0 <= a < n && #[trigger] order[a] == missing;
            assert(order[a] != order[n]);
        }
        assert(!s.arrived.contains_key(missing as u16));
    }
    lemma_holds_first(s0, id, message, mtu, order, count);
    assert(fed.take(count) =~= fed);
    let s = feed(s0, fed);
    assert(named_before(order, count, count - 1));
    assert forall|i: u16| i <= (count - 1) as u16 implies s.arrived.contains_key(i) by {
        assert(named_before(order, count, i as int));
    }
    assert(complete(s));
    assert forall|i: int| 0 <= i < count implies s.arrived[i as u16] == #[trigger] chunk(
        message,
        mtu,
        i,
    ) by {
        assert(named_before(order, count, i));
        assert(s.arrived.contains_key(i as u16));
    }
    lemma_joined_prefix(s.arrived, message, mtu, count as nat);
    if message.len() > 0 {
        lemma_chunk_count(message.len(), mtu, count as nat);
    }
    assert(message.subrange(0, message.len() as int) =~= message);
}

} // verus!
