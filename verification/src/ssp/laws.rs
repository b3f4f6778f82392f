//! What holds of the state machine whatever the events are.

use vstd::prelude::*;
use crate::proto::decode::decoded;
use crate::proto::error::ProtoError;
use crate::proto::instruction::{ack_instruction, or_zero, InstructionView};
use crate::proto::roundtrip::lemma_decode_inverts_encode;
use crate::ssp::model::{
    acked,
    acked_count,
    delivered,
    due_payloads,
    heartbeat_bytes,
    heartbeat_due,
    is_due,
    new_session,
    pushed,
    queued,
    received,
    refreshed,
    resent,
    rtt_after,
    ticked,
    tick_output,
    wf,
    PendingView,
    SspView,
};
use crate::ssp::rtt::{lemma_updated_wf, rtt_wf, RttView};

verus! {

/// Retiring messages keeps the estimator within its limits.
pub proof fn lemma_rtt_after_wf(rtt: RttView, retired: Seq<PendingView>, now_ms: u64)
    requires
        rtt_wf(rtt),
    ensures
        rtt_wf(rtt_after(rtt, retired, now_ms)),
    decreases retired.len(),
{
    if retired.len() > 0 {
        lemma_rtt_after_wf(rtt, retired.drop_last(), now_ms);
        let before = rtt_after(rtt, retired.drop_last(), now_ms);
        lemma_updated_wf(before, crate::ssp::model::elapsed(now_ms, retired.last().sent_at_ms));
    }
}

/// The count of acknowledged messages is at most the length of the queue.
pub proof fn lemma_acked_count_bound(pending: Seq<PendingView>, ack_num: u64)
    ensures
        acked_count(pending, ack_num) <= pending.len(),
    decreases pending.len(),
{
    if pending.len() > 0 && pending[0].num <= ack_num {
        lemma_acked_count_bound(pending.skip(1), ack_num);
    }
}

/// An acknowledgement leaves a possible state possible.
pub proof fn lemma_acked_wf(s: SspView, ack_num: u64, now_ms: u64)
    requires
        wf(s),
    ensures
        wf(acked(s, ack_num, now_ms)),
{
    if ack_num > s.last_acked {
        let k = acked_count(s.pending, ack_num) as int;
        lemma_acked_count_bound(s.pending, ack_num);
        lemma_rtt_after_wf(s.rtt, s.pending.take(k), now_ms);
        let a = acked(s, ack_num, now_ms);
        assert forall|i: int| 0 <= i < a.pending.len() implies (#[trigger] a.pending[i]).num + (
        a.pending.len() - i) == a.next_send_num by {
            assert(a.pending[i] == s.pending[k + i]);
        }
    }
}

/// A message of the peer leaves a possible state possible.
pub proof fn lemma_received_wf(s: SspView, instr: InstructionView, now_ms: u64)
    requires
        wf(s),
    ensures
        wf(received(s, instr, now_ms)),
{
    let a = acked(s, or_zero(instr.ack_num), now_ms);
    lemma_acked_wf(s, or_zero(instr.ack_num), now_ms);
    let r = received(s, instr, now_ms);
    assert forall|i: int| 0 <= i < r.pending.len() implies (#[trigger] r.pending[i]).num + (
    r.pending.len() - i) == r.next_send_num by {
        assert(r.pending[i] == a.pending[i]);
    }
}

/// A tick leaves a possible state possible, as long as a number is left
/// for the message it may have to make.
pub proof fn lemma_ticked_wf(s: SspView, now_ms: u64)
    requires
        wf(s),
        s.outgoing.len() > 0 ==> s.next_send_num < u64::MAX,
    ensures
        wf(ticked(s, now_ms)),
{
    let q = queued(s, now_ms);
    assert forall|i: int| 0 <= i < q.pending.len() implies (#[trigger] q.pending[i]).num + (
    q.pending.len() - i) == q.next_send_num by {
        if i < s.pending.len() {
            assert(q.pending[i] == s.pending[i]);
        }
    }
    let t = ticked(s, now_ms);
    assert forall|i: int| 0 <= i < t.pending.len() implies (#[trigger] t.pending[i]).num + (
    t.pending.len() - i) == t.next_send_num by {
        assert(t.pending[i].num == q.pending[i].num);
    }
}

/// The retransmission timeout is within 50 and 1000 ms in a new session
/// and after every event.
pub proof fn lemma_timeout_in_range(s: SspView, instr: InstructionView, now_ms: u64)
    requires
        wf(s),
    ensures
        50 <= new_session().rtt.rto_ms <= 1000,
        50 <= s.rtt.rto_ms <= 1000,
        50 <= received(s, instr, now_ms).rtt.rto_ms <= 1000,
        50 <= ticked(s, now_ms).rtt.rto_ms <= 1000,
        50 <= pushed(s, instr.diff.unwrap_or(Seq::empty())).rtt.rto_ms <= 1000,
{
    lemma_received_wf(s, instr, now_ms);
}

/// Where every pending message is numbered at most `ack_num`, all of them
/// count as acknowledged.
pub proof fn lemma_acked_count_all(pending: Seq<PendingView>, ack_num: u64)
    requires
        forall|i: int| 0 <= i < pending.len() ==> (#[trigger] pending[i]).num <= ack_num,
    ensures
        acked_count(pending, ack_num) == pending.len(),
    decreases pending.len(),
{
    if pending.len() > 0 {
        assert(pending[0].num <= ack_num);
        assert forall|i: int| 0 <= i < pending.skip(1).len() implies (#[trigger] pending.skip(
            1,
        )[i]).num <= ack_num by {
            assert(pending.skip(1)[i] == pending[i + 1]);
        }
        lemma_acked_count_all(pending.skip(1), ack_num);
    }
}

/// The state after payloads were sent one by one: each is queued and then
/// goes out with the tick of its time.
pub open spec fn after_sends(payloads: Seq<Seq<u8>>, times: Seq<u64>) -> SspView
    recommends
        payloads.len() == times.len(),
    decreases payloads.len(),
{
    if payloads.len() == 0 {
        new_session()
    } else {
        ticked(
            pushed(after_sends(payloads.drop_last(), times.drop_last()), payloads.last()),
            times.last(),
        )
    }
}

/// After `n` payloads were sent, the next message is number `n + 1`, and
/// nothing was acknowledged.
pub proof fn lemma_after_sends(payloads: Seq<Seq<u8>>, times: Seq<u64>)
    requires
        payloads.len() == times.len(),
        payloads.len() < u64::MAX,
        forall|i: int| 0 <= i < payloads.len() ==> (#[trigger] payloads[i]).len() > 0,
    ensures
        wf(after_sends(payloads, times)),
        after_sends(payloads, times).next_send_num == payloads.len() + 1,
        after_sends(payloads, times).last_acked == 0,
        after_sends(payloads, times).pending.len() == payloads.len(),
    decreases payloads.len(),
{
    if payloads.len() > 0 {
        let fewer = payloads.drop_last();
        assert forall|i: int| 0 <= i < fewer.len() implies (#[trigger] fewer[i]).len() > 0 by {
            assert(fewer[i] == payloads[i]);
        }
        lemma_after_sends(fewer, times.drop_last());
        let s = pushed(after_sends(fewer, times.drop_last()), payloads.last());
        assert(s.outgoing.len() > 0);
        assert forall|i: int| 0 <= i < s.pending.len() implies (#[trigger] s.pending[i]).num + (
        s.pending.len() - i) == s.next_send_num by {
            assert(s.pending[i] == after_sends(fewer, times.drop_last()).pending[i]);
        }
        lemma_ticked_wf(s, times.last());
    }
}

/// After `n` payloads were sent and the peer acknowledged the last of
/// them, no message is pending and the next one is number `n + 1`.
pub proof fn lemma_ack_of_last_retires_all(
    payloads: Seq<Seq<u8>>,
    times: Seq<u64>,
    throwaway_num: u64,
    now_ms: u64,
)
    requires
        payloads.len() == times.len(),
        payloads.len() < u64::MAX,
        forall|i: int| 0 <= i < payloads.len() ==> (#[trigger] payloads[i]).len() > 0,
    ensures
        ({
            let ack = ack_instruction(payloads.len() as u64, throwaway_num);
            let r = received(after_sends(payloads, times), ack, now_ms);
            r.pending.len() == 0 && r.next_send_num == payloads.len() + 1
        }),
{
    let n = payloads.len() as u64;
    let s = after_sends(payloads, times);
    lemma_after_sends(payloads, times);
    if n > 0 {
        assert forall|i: int| 0 <= i < s.pending.len() implies (#[trigger] s.pending[i]).num
            <= n by {}
        lemma_acked_count_all(s.pending, n);
    }
}

/// No pending message is due: nothing is sent again.
pub proof fn lemma_none_due(pending: Seq<PendingView>, now_ms: u64, rto_ms: u64)
    requires
        forall|i: int| 0 <= i < pending.len() ==> !is_due(#[trigger] pending[i], now_ms, rto_ms),
    ensures
        due_payloads(pending, now_ms, rto_ms).len() == 0,
        refreshed(pending, now_ms, rto_ms) == pending,
    decreases pending.len(),
{
    if pending.len() > 0 {
        assert forall|i: int| 0 <= i < pending.drop_last().len() implies !is_due(
            #[trigger] pending.drop_last()[i],
            now_ms,
            rto_ms,
        ) by {
            assert(pending.drop_last()[i] == pending[i]);
        }
        lemma_none_due(pending.drop_last(), now_ms, rto_ms);
        assert(!is_due(pending[pending.len() - 1], now_ms, rto_ms));
    }
    assert(refreshed(pending, now_ms, rto_ms) =~= pending);
}

/// Where nothing waits to be sent, no pending message is due and nothing
/// new was sent for 3000 ms, a tick sends exactly one message: a
/// heartbeat, which reads as `new_num` 0 and acknowledges what came. The
/// tick notes the time, so that no second heartbeat is due at once.
pub proof fn lemma_heartbeat(s: SspView, now_ms: u64)
    requires
        s.outgoing.len() == 0,
        forall|i: int|
            0 <= i < s.pending.len() ==> !is_due(#[trigger] s.pending[i], now_ms, s.rtt.rto_ms),
        heartbeat_due(s, now_ms),
    ensures
        tick_output(s, now_ms) == seq![heartbeat_bytes(s)],
        decoded(heartbeat_bytes(s)) == Ok::<InstructionView, ProtoError>(
            ack_instruction(s.last_recv_num, s.peer_throwaway_num),
        ),
        ack_instruction(s.last_recv_num, s.peer_throwaway_num).new_num == Some(0u64),
        ack_instruction(s.last_recv_num, s.peer_throwaway_num).ack_num == Some(s.last_recv_num),
        ticked(s, now_ms) == (SspView { last_send_ms: now_ms, ..s }),
        !heartbeat_due(ticked(s, now_ms), now_ms),
{
    lemma_none_due(s.pending, now_ms, s.rtt.rto_ms);
    lemma_decode_inverts_encode(ack_instruction(s.last_recv_num, s.peer_throwaway_num));
    assert(Seq::<Seq<u8>>::empty() + due_payloads(s.pending, now_ms, s.rtt.rto_ms)
        =~= Seq::<Seq<u8>>::empty());
}

/// Where nothing waits and no pending message is due, a tick before the
/// 3000 ms are over sends nothing and changes nothing.
pub proof fn lemma_quiet_tick(s: SspView, now_ms: u64)
    requires
        s.outgoing.len() == 0,
        forall|i: int|
            0 <= i < s.pending.len() ==> !is_due(#[trigger] s.pending[i], now_ms, s.rtt.rto_ms),
        !heartbeat_due(s, now_ms),
    ensures
        tick_output(s, now_ms).len() == 0,
        ticked(s, now_ms) == s,
{
    lemma_none_due(s.pending, now_ms, s.rtt.rto_ms);
    assert(Seq::<Seq<u8>>::empty() + due_payloads(s.pending, now_ms, s.rtt.rto_ms)
        =~= Seq::<Seq<u8>>::empty());
}

/// A message that was sent again counts as sent again for good.
pub proof fn lemma_resent_is_marked(p: PendingView, now_ms: u64)
    ensures
        resent(p, now_ms).retransmit_count > 0,
        resent(resent(p, now_ms), now_ms).retransmit_count > 0,
{
}

/// Messages that were sent again give no round-trip sample when they
/// retire.
pub proof fn lemma_retired_resent_give_no_sample(
    rtt: RttView,
    retired: Seq<PendingView>,
    now_ms: u64,
)
    requires
        forall|i: int| 0 <= i < retired.len() ==> (#[trigger] retired[i]).retransmit_count > 0,
    ensures
        rtt_after(rtt, retired, now_ms) == rtt,
    decreases retired.len(),
{
    if retired.len() > 0 {
        assert forall|i: int| 0 <= i < retired.drop_last().len() implies (
        #[trigger] retired.drop_last()[i]).retransmit_count > 0 by {
            assert(retired.drop_last()[i] == retired[i]);
        }
        lemma_retired_resent_give_no_sample(rtt, retired.drop_last(), now_ms);
        assert(retired[retired.len() - 1].retransmit_count > 0);
    }
}

/// Karn's rule: an acknowledgement that covers only messages that were
/// sent again leaves the estimator as it was.
pub proof fn lemma_karn(s: SspView, ack_num: u64, now_ms: u64)
    requires
        forall|i: int|
            0 <= i < s.pending.len() && (#[trigger] s.pending[i]).num <= ack_num
                ==> s.pending[i].retransmit_count > 0,
    ensures
        acked(s, ack_num, now_ms).rtt == s.rtt,
{
    if ack_num > s.last_acked {
        let k = acked_count(s.pending, ack_num) as int;
        lemma_acked_count_bound(s.pending, ack_num);
        lemma_acked_prefix(s.pending, ack_num, k);
        let retired = s.pending.take(k);
        assert forall|i: int| 0 <= i < retired.len() implies (
        #[trigger] retired[i]).retransmit_count > 0 by {
            assert(retired[i] == s.pending[i]);
        }
        lemma_retired_resent_give_no_sample(s.rtt, retired, now_ms);
    }
}

/// Karn's rule for a message of the peer: where its acknowledgement covers
/// only messages that were sent again, taking it leaves the estimator as it
/// was.
pub proof fn lemma_karn_on_receipt(s: SspView, instr: InstructionView, now_ms: u64)
    requires
        forall|i: int|
            0 <= i < s.pending.len() && (#[trigger] s.pending[i]).num <= or_zero(instr.ack_num)
                ==> s.pending[i].retransmit_count > 0,
    ensures
        received(s, instr, now_ms).rtt == s.rtt,
{
    lemma_karn(s, or_zero(instr.ack_num), now_ms);
}

/// Every message that counts as acknowledged is numbered at most
/// `ack_num`.
pub proof fn lemma_acked_prefix(pending: Seq<PendingView>, ack_num: u64, k: int)
    requires
        k == acked_count(pending, ack_num),
    ensures
        0 <= k <= pending.len(),
        forall|i: int| 0 <= i < k ==> (#[trigger] pending[i]).num <= ack_num,
    decreases pending.len(),
{
    if pending.len() > 0 && pending[0].num <= ack_num {
        lemma_acked_prefix(pending.skip(1), ack_num, k - 1);
        assert forall|i: int| 0 <= i < k implies (#[trigger] pending[i]).num <= ack_num by {
            if i > 0 {
                assert(pending.skip(1)[i - 1] == pending[i]);
            }
        }
    }
}

/// A message of the peer that is numbered at or below what was taken
/// before delivers nothing, and neither does a heartbeat.
pub proof fn lemma_duplicate_delivers_nothing(s: SspView, instr: InstructionView, now_ms: u64)
    requires
        or_zero(instr.new_num) <= s.last_recv_num,
    ensures
        delivered(s, instr) is None,
        received(s, instr, now_ms).last_recv_num == s.last_recv_num,
{
}

/// What was taken from the peer never goes back: neither the number of its
/// newest message nor its throwaway mark.
pub proof fn lemma_receiver_monotonic(s: SspView, instr: InstructionView, now_ms: u64)
    ensures
        received(s, instr, now_ms).last_recv_num >= s.last_recv_num,
        received(s, instr, now_ms).peer_throwaway_num >= s.peer_throwaway_num,
        ticked(s, now_ms).last_recv_num == s.last_recv_num,
        ticked(s, now_ms).peer_throwaway_num == s.peer_throwaway_num,
{
}

/// Whether sender and peer are in step: the peer has acknowledged nothing
/// that was not sent, and exactly the messages after the last acknowledged
/// one are pending. Then `last_acked` is at most `next_send_num - 1`, and
/// the pending messages are numbered from `last_acked + 1` upward without
/// a gap.
pub open spec fn in_step(s: SspView) -> bool {
    &&& wf(s)
    &&& s.last_acked + s.pending.len() + 1 == s.next_send_num
}

/// In step, the pending messages are numbered from `last_acked + 1` upward.
pub proof fn lemma_in_step_numbers(s: SspView, i: int)
    requires
        in_step(s),
        0 <= i < s.pending.len(),
    ensures
        s.pending[i].num == s.last_acked + 1 + i,
        s.last_acked <= s.next_send_num - 1,
{
}

/// Of messages numbered `first`, `first + 1`, ... those up to `ack_num`
/// count as acknowledged.
proof fn lemma_acked_count_of_run(pending: Seq<PendingView>, first: int, ack_num: u64)
    requires
        forall|i: int| 0 <= i < pending.len() ==> (#[trigger] pending[i]).num == first + i,
    ensures
        acked_count(pending, ack_num) == if ack_num < first {
            0
        } else if ack_num - first + 1 >= pending.len() {
            pending.len() as int
        } else {
            ack_num - first + 1
        },
    decreases pending.len(),
{
    if pending.len() > 0 {
        assert(pending[0].num == first);
        if first <= ack_num {
            assert forall|i: int| 0 <= i < pending.skip(1).len() implies (#[trigger] pending.skip(
                1,
            )[i]).num == first + 1 + i by {
                assert(pending.skip(1)[i] == pending[i + 1]);
            }
            lemma_acked_count_of_run(pending.skip(1), first + 1, ack_num);
        }
    }
}

/// A new session is in step; queuing bytes and ticking keep a session in
/// step; and so does every message of the peer that acknowledges nothing
/// beyond what was sent.
pub proof fn lemma_in_step_kept(s: SspView, diff: Seq<u8>, instr: InstructionView, now_ms: u64)
    requires
        in_step(s),
    ensures
        in_step(new_session()),
        in_step(pushed(s, diff)),
        s.outgoing.len() > 0 ==> s.next_send_num < u64::MAX ==> in_step(ticked(s, now_ms)),
        s.outgoing.len() == 0 ==> in_step(ticked(s, now_ms)),
        or_zero(instr.ack_num) < s.next_send_num ==> in_step(received(s, instr, now_ms)),
{
    let p = pushed(s, diff);
    assert forall|i: int| 0 <= i < p.pending.len() implies (#[trigger] p.pending[i]).num + (
    p.pending.len() - i) == p.next_send_num by {
        assert(p.pending[i] == s.pending[i]);
    }
    if s.outgoing.len() > 0 ==> s.next_send_num < u64::MAX {
        lemma_ticked_wf(s, now_ms);
    }
    let ack = or_zero(instr.ack_num);
    if ack < s.next_send_num {
        lemma_received_wf(s, instr, now_ms);
        if ack > s.last_acked {
            assert forall|i: int| 0 <= i < s.pending.len() implies (#[trigger] s.pending[i]).num
                == s.last_acked + 1 + i by {}
            lemma_acked_count_of_run(s.pending, s.last_acked + 1, ack);
        }
    }
}

} // verus!
