//! What one client sends, another takes: the datagrams of a message may
//! come in any order, and with the last of them the session has the
//! message.

use vstd::prelude::*;
use crate::client::{
    after_datagram,
    after_instruction,
    client_wf,
    datagram_output,
    fed,
    instruction_output,
    written,
    ClientView,
};
use crate::crypto::session::opened;
use crate::egress::{all_carry, carries, fragments_of_all};
use crate::proto::instruction::{encoded, send_instruction, InstructionView};
use crate::proto::roundtrip::{lemma_decode_inverts_encode, lengths_fit};
use crate::ssp::laws::lemma_none_due;
use crate::ssp::model::{due_payloads, is_due, queued, send_bytes, tick_output};
use crate::transport::assembly::{accept, feed, output};
use crate::transport::fragment::{
    chunk_count,
    fragment_bytes,
    fragments_of,
    lemma_fragment_roundtrip,
    parse_fragment,
    FragmentView,
};
use crate::transport::reassembly::{in_order, is_permutation, lemma_reassembly_inverts_splitting};

verus! {

/// A datagram that does not open gives the host nothing and leaves the
/// client as it was, in every part.
pub proof fn lemma_unopened_datagram_changes_nothing(c: ClientView, packet: Seq<u8>, now_ms: u64)
    requires
        opened(c.crypto.key, packet) is Err,
    ensures
        after_datagram(c, packet, now_ms) == c,
        datagram_output(c, packet) == Seq::<u8>::empty(),
{
}

/// The state after datagrams came one by one, each at its time.
pub open spec fn after_datagrams(c: ClientView, packets: Seq<Seq<u8>>, times: Seq<u64>)
    -> ClientView
    recommends
        packets.len() == times.len(),
    decreases packets.len(),
{
    if packets.len() == 0 {
        c
    } else {
        after_datagram(
            after_datagrams(c, packets.drop_last(), times.drop_last()),
            packets.last(),
            times.last(),
        )
    }
}

/// The datagrams in the order in which `order` names them.
pub open spec fn packets_in_order(packets: Seq<Seq<u8>>, order: Seq<int>) -> Seq<Seq<u8>> {
    Seq::new(order.len(), |a: int| packets[order[a]])
}

/// A client that is waiting for the rest of a message: it is what it was
/// but for the fragments it holds, and the counter and timestamp of the
/// last datagram.
pub open spec fn waiting(c: ClientView, s: ClientView, held: Seq<FragmentView>) -> bool {
    &&& s.crypto.key == c.crypto.key
    &&& s.crypto.send_seq == c.crypto.send_seq
    &&& s.fragmenter == c.fragmenter
    &&& s.ssp == c.ssp
    &&& s.stream == c.stream
    &&& s.assembly == feed(c.assembly, held)
}

/// A datagram that carries a fragment numbered below 2^15 is taken as that
/// fragment.
proof fn lemma_carried_fragment(s: ClientView, packet: Seq<u8>, f: FragmentView, now_ms: u64)
    requires
        carries(s.crypto.key, packet, f),
        f.fragment_num < 0x8000,
    ensures
        ({
            let p = opened(s.crypto.key, packet)->Ok_0;
            let noted = ClientView {
                crypto: crate::crypto::session::CryptoView { recv_seq: p.seq, ..s.crypto },
                last_remote_timestamp: p.timestamp,
                ..s
            };
            &&& after_datagram(s, packet, now_ms) == crate::client::after_fragment(
                noted,
                f,
                now_ms,
            )
            &&& datagram_output(s, packet) == crate::client::fragment_output(s, f)
        }),
{
    lemma_fragment_roundtrip(f);
}

/// While fragments of a message are missing, the client waits: whatever
/// came so far, in whatever order, changed neither the session nor the
/// stream, and gave the host nothing.
pub proof fn lemma_waiting_for_the_rest(
    c: ClientView,
    id: u64,
    message: Seq<u8>,
    mtu: nat,
    packets: Seq<Seq<u8>>,
    order: Seq<int>,
    times: Seq<u64>,
    n: int,
)
    requires
        mtu > 0,
        chunk_count(message.len(), mtu) <= 0x8000,
        all_carry(c.crypto.key, packets, fragments_of(id, message, mtu)),
        is_permutation(order, chunk_count(message.len(), mtu)),
        times.len() == order.len(),
        c.assembly.current_id != Some(id),
        0 <= n < order.len(),
    ensures
        waiting(
            c,
            after_datagrams(c, packets_in_order(packets, order).take(n), times.take(n)),
            in_order(fragments_of(id, message, mtu), order).take(n),
        ),
        n > 0 ==> datagram_output(
            after_datagrams(c, packets_in_order(packets, order).take(n - 1), times.take(n - 1)),
            packets[order[n - 1]],
        ) == Seq::<u8>::empty(),
    decreases n,
{
    let frags = fragments_of(id, message, mtu);
    let coming = packets_in_order(packets, order);
    let fed = in_order(frags, order);
    if n == 0 {
        assert(coming.take(0) =~= Seq::<Seq<u8>>::empty());
        assert(fed.take(0) =~= Seq::<FragmentView>::empty());
    } else {
        lemma_waiting_for_the_rest(c, id, message, mtu, packets, order, times, n - 1);
        assert(coming.take(n).drop_last() =~= coming.take(n - 1));
        assert(times.take(n).drop_last() =~= times.take(n - 1));
        assert(fed.take(n).drop_last() =~= fed.take(n - 1));
        let s = after_datagrams(c, coming.take(n - 1), times.take(n - 1));
        let i = order[n - 1];
        let packet = coming.take(n).last();
        let f = fed.take(n).last();
        assert(packet == packets[i]);
        assert(f == frags[i]);
        assert(carries(c.crypto.key, packets[i], frags[i]));
        assert(f.fragment_num == i as u16);
        lemma_carried_fragment(s, packet, f, times.take(n).last());
        lemma_reassembly_inverts_splitting(c.assembly, id, message, mtu, order);
        assert(feed(c.assembly, fed.take(n)) == accept(feed(c.assembly, fed.take(n - 1)), f));
        assert(output(feed(c.assembly, fed.take(n))) is None);
    }
}

/// The datagrams of one message, in whatever order they come, deliver the
/// message with the last of them.
///
/// Let `packets` carry the fragments of an instruction, at most 2^15 of
/// them, to a client that is not in the middle of this very message. After
/// all of them came, the client's session has taken the instruction at the
/// time of the last, the host has been given what the instruction delivers
/// after what waited for it, and nothing else has changed but the
/// reassembly and the counter and timestamp of the last datagram.
pub proof fn lemma_message_arrives(
    c: ClientView,
    id: u64,
    instr: InstructionView,
    mtu: nat,
    packets: Seq<Seq<u8>>,
    order: Seq<int>,
    times: Seq<u64>,
)
    requires
        lengths_fit(instr),
        instr.protocol_version == Some(2u32) || instr.protocol_version == None::<u32>,
        mtu > 0,
        chunk_count(encoded(instr).len(), mtu) <= 0x8000,
        all_carry(c.crypto.key, packets, fragments_of(id, encoded(instr), mtu)),
        is_permutation(order, chunk_count(encoded(instr).len(), mtu)),
        times.len() == order.len(),
        c.assembly.current_id != Some(id),
    ensures
        ({
            let coming = packets_in_order(packets, order);
            let before = after_datagrams(c, coming.drop_last(), times.drop_last());
            let after = after_datagrams(c, coming, times);
            &&& order.len() > 0
            &&& after.ssp == after_instruction(c, instr, times.last()).ssp
            &&& after.stream == after_instruction(c, instr, times.last()).stream
            &&& after.fragmenter == c.fragmenter
            &&& after.crypto.key == c.crypto.key
            &&& after.crypto.send_seq == c.crypto.send_seq
            &&& datagram_output(before, coming.last()) == instruction_output(c, instr)
        }),
{
    let message = encoded(instr);
    let frags = fragments_of(id, message, mtu);
    let count = frags.len() as int;
    let coming = packets_in_order(packets, order);
    let fed = in_order(frags, order);
    assert(count >= 1) by {
        if message.len() > 0 {
            crate::transport::fragment::lemma_chunk_count(message.len(), mtu, 0);
            assert(0 * mtu == 0) by (nonlinear_arith);
        }
    }
    lemma_waiting_for_the_rest(c, id, message, mtu, packets, order, times, count - 1);
    assert(coming.drop_last() =~= coming.take(count - 1));
    assert(times.drop_last() =~= times.take(count - 1));
    let s = after_datagrams(c, coming.drop_last(), times.drop_last());
    let i = order[count - 1];
    let packet = coming.last();
    let f = fed.last();
    assert(packet == packets[i]);
    assert(f == frags[i]);
    assert(carries(c.crypto.key, packets[i], frags[i]));
    assert(f.fragment_num == i as u16);
    lemma_carried_fragment(s, packet, f, times.last());
    lemma_reassembly_inverts_splitting(c.assembly, id, message, mtu, order);
    assert(fed.drop_last() =~= fed.take(count - 1));
    assert(feed(c.assembly, fed) == accept(feed(c.assembly, fed.drop_last()), f));
    assert(output(accept(s.assembly, f)) == Some(message));
    lemma_decode_inverts_encode(instr);
}

/// Where nothing is due again, what a client sends for bytes of the host
/// is one message: the new one, which carries the bytes.
pub proof fn lemma_one_new_message(c: ClientView, data: Seq<u8>, now_ms: u64)
    requires
        client_wf(c),
        data.len() > 0,
        forall|i: int|
            0 <= i < c.ssp.pending.len() ==> !is_due(
                #[trigger] c.ssp.pending[i],
                now_ms,
                c.ssp.rtt.rto_ms,
            ),
    ensures
        tick_output(fed(written(c, data)), now_ms) == seq![
            encoded(
                send_instruction(
                    c.ssp.last_acked,
                    c.ssp.next_send_num,
                    c.ssp.last_recv_num,
                    c.ssp.peer_throwaway_num,
                    data,
                ),
            ),
        ],
{
    let s = fed(written(c, data));
    assert(written(c, data).stream.send =~= data);
    assert(s.outgoing =~= data);
    let q = queued(s, now_ms);
    assert(q.pending.drop_last() =~= c.ssp.pending);
    lemma_none_due(c.ssp.pending, now_ms, c.ssp.rtt.rto_ms);
    assert(!is_due(q.pending.last(), now_ms, q.rtt.rto_ms));
    assert(due_payloads(q.pending, now_ms, q.rtt.rto_ms).len() == 0);
    assert(tick_output(s, now_ms) =~= seq![send_bytes(s)]);
}

/// Bytes of the host that one client sends come out at the other, whatever
/// the order of the datagrams.
///
/// Let a client with nothing due again send `data`, and let `packets`
/// carry the fragments of what it sends, at most 2^15 of them, to a client
/// on the same key that has not yet taken a message with this number and
/// is not in the middle of a message with this identifier. With the last
/// datagram the host of the receiver is given `data`, after what waited
/// for it, and the receiver has taken the sender's number.
pub proof fn lemma_sent_bytes_arrive(
    sender: ClientView,
    receiver: ClientView,
    data: Seq<u8>,
    now_ms: u64,
    packets: Seq<Seq<u8>>,
    order: Seq<int>,
    times: Seq<u64>,
)
    requires
        client_wf(sender),
        0 < data.len() <= u64::MAX,
        forall|i: int|
            0 <= i < sender.ssp.pending.len() ==> !is_due(
                #[trigger] sender.ssp.pending[i],
                now_ms,
                sender.ssp.rtt.rto_ms,
            ),
        all_carry(
            sender.crypto.key,
            packets,
            fragments_of_all(sender.fragmenter, tick_output(fed(written(sender, data)), now_ms)),
        ),
        packets.len() <= 0x8000,
        is_permutation(order, packets.len()),
        times.len() == order.len(),
        receiver.crypto.key == sender.crypto.key,
        receiver.assembly.current_id != Some(sender.fragmenter.next_instruction_id),
        receiver.ssp.last_recv_num < sender.ssp.next_send_num,
    ensures
        ({
            let coming = packets_in_order(packets, order);
            let before = after_datagrams(receiver, coming.drop_last(), times.drop_last());
            let after = after_datagrams(receiver, coming, times);
            &&& order.len() > 0
            &&& datagram_output(before, coming.last()) == receiver.stream.recv + data
            &&& after.ssp.last_recv_num == sender.ssp.next_send_num
            &&& after.stream.recv == Seq::<u8>::empty()
        }),
{
    let instr = send_instruction(
        sender.ssp.last_acked,
        sender.ssp.next_send_num,
        sender.ssp.last_recv_num,
        sender.ssp.peer_throwaway_num,
        data,
    );
    let messages = tick_output(fed(written(sender, data)), now_ms);
    lemma_one_new_message(sender, data, now_ms);
    assert(messages.drop_last() =~= Seq::<Seq<u8>>::empty());
    assert(messages.last() == encoded(instr));
    assert(fragments_of_all(sender.fragmenter, messages.drop_last()) =~= Seq::<
        FragmentView,
    >::empty());
    let frags = fragments_of(
        sender.fragmenter.next_instruction_id,
        encoded(instr),
        sender.fragmenter.mtu,
    );
    assert(fragments_of_all(sender.fragmenter, messages) =~= frags);
    lemma_message_arrives(
        receiver,
        sender.fragmenter.next_instruction_id,
        instr,
        sender.fragmenter.mtu,
        packets,
        order,
        times,
    );
}

} // verus!
