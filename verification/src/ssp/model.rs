//! The state machine as mathematics: what each event makes of a state.

use vstd::prelude::*;
use crate::proto::instruction::{
    ack_instruction,
    carries_diff,
    diff_of,
    encoded,
    or_zero,
    send_instruction,
    InstructionView,
};
use crate::ssp::rtt::{initial_rtt, rtt_wf, updated, RttView};

verus! {

/// A message that was sent and is not yet acknowledged.
pub struct PendingView {
    /// The `new_num` of the message.
    pub num: u64,
    /// The bytes of the message as they were sent.
    pub payload: Seq<u8>,
    /// When they were last sent.
    pub sent_at_ms: u64,
    /// How often they were sent again; the count stops at `u32::MAX`.
    pub retransmit_count: u32,
}

/// The mathematical content of an `SspSession`.
pub struct SspView {
    /// The number of the next message with a payload.
    pub next_send_num: u64,
    /// The newest of our messages that the peer acknowledged.
    pub last_acked: u64,
    /// The messages awaiting acknowledgement, oldest first.
    pub pending: Seq<PendingView>,
    /// The bytes waiting for the next tick.
    pub outgoing: Seq<u8>,
    /// When a new message or a heartbeat was last sent.
    pub last_send_ms: u64,
    /// The newest message of the peer that was taken.
    pub last_recv_num: u64,
    /// The highest throwaway mark that the peer announced.
    pub peer_throwaway_num: u64,
    /// When a message of the peer last came.
    pub last_recv_ms: u64,
    /// The round-trip estimator.
    pub rtt: RttView,
}

/// The state of a new session.
pub open spec fn new_session() -> SspView {
    SspView {
        next_send_num: 1,
        last_acked: 0,
        pending: Seq::empty(),
        outgoing: Seq::empty(),
        last_send_ms: 0,
        last_recv_num: 0,
        peer_throwaway_num: 0,
        last_recv_ms: 0,
        rtt: initial_rtt(),
    }
}

/// Whether a state is one that a session can be in: the estimator is within
/// its limits, and the pending messages are numbered without a gap up to
/// the one before `next_send_num`.
pub open spec fn wf(s: SspView) -> bool {
    &&& rtt_wf(s.rtt)
    &&& s.next_send_num >= 1
    &&& forall|i: int|
        0 <= i < s.pending.len() ==> (#[trigger] s.pending[i]).num + (s.pending.len() - i)
            == s.next_send_num
}

/// The milliseconds from `then` to `now`, 0 where `then` is later.
pub open spec fn elapsed(now_ms: u64, then_ms: u64) -> u64 {
    if now_ms >= then_ms {
        (now_ms - then_ms) as u64
    } else {
        0
    }
}

/// The state with more bytes waiting.
pub open spec fn pushed(s: SspView, diff: Seq<u8>) -> SspView {
    SspView { outgoing: s.outgoing + diff, ..s }
}

/// The bytes of the message that carries everything that waits.
pub open spec fn send_bytes(s: SspView) -> Seq<u8> {
    encoded(
        send_instruction(
            s.last_acked,
            s.next_send_num,
            s.last_recv_num,
            s.peer_throwaway_num,
            s.outgoing,
        ),
    )
}

/// The bytes of a heartbeat.
pub open spec fn heartbeat_bytes(s: SspView) -> Seq<u8> {
    encoded(ack_instruction(s.last_recv_num, s.peer_throwaway_num))
}

/// The state after the waiting bytes, if any, went into a new message.
pub open spec fn queued(s: SspView, now_ms: u64) -> SspView {
    if s.outgoing.len() == 0 {
        s
    } else {
        SspView {
            next_send_num: (s.next_send_num + 1) as u64,
            pending: s.pending.push(
                PendingView {
                    num: s.next_send_num,
                    payload: send_bytes(s),
                    sent_at_ms: now_ms,
                    retransmit_count: 0,
                },
            ),
            outgoing: Seq::empty(),
            last_send_ms: now_ms,
            ..s
        }
    }
}

/// Whether a pending message has waited for the timeout.
pub open spec fn is_due(p: PendingView, now_ms: u64, rto_ms: u64) -> bool {
    elapsed(now_ms, p.sent_at_ms) >= rto_ms
}

/// A pending message after it was sent again.
pub open spec fn resent(p: PendingView, now_ms: u64) -> PendingView {
    PendingView {
        sent_at_ms: now_ms,
        retransmit_count: if p.retransmit_count == u32::MAX {
            u32::MAX
        } else {
            (p.retransmit_count + 1) as u32
        },
        ..p
    }
}

/// A pending message after a tick.
pub open spec fn refreshed_one(p: PendingView, now_ms: u64, rto_ms: u64) -> PendingView {
    if is_due(p, now_ms, rto_ms) {
        resent(p, now_ms)
    } else {
        p
    }
}

/// The pending messages after those that were due were sent again.
pub open spec fn refreshed(pending: Seq<PendingView>, now_ms: u64, rto_ms: u64) -> Seq<
    PendingView,
> {
    Seq::new(pending.len(), |i: int| refreshed_one(pending[i], now_ms, rto_ms))
}

/// The bytes of the pending messages that are due, oldest first.
pub open spec fn due_payloads(pending: Seq<PendingView>, now_ms: u64, rto_ms: u64) -> Seq<
    Seq<u8>,
>
    decreases pending.len(),
{
    if pending.len() == 0 {
        Seq::empty()
    } else {
        let before = due_payloads(pending.drop_last(), now_ms, rto_ms);
        if is_due(pending.last(), now_ms, rto_ms) {
            before.push(pending.last().payload)
        } else {
            before
        }
    }
}

/// Whether a heartbeat is due: nothing new was sent for 3000 ms.
pub open spec fn heartbeat_due(s: SspView, now_ms: u64) -> bool {
    elapsed(now_ms, s.last_send_ms) >= 3000
}

/// What a tick sends before it thinks of a heartbeat: the new message, if
/// bytes were waiting, then every pending message that is due.
pub open spec fn work_output(s: SspView, now_ms: u64) -> Seq<Seq<u8>> {
    let q = queued(s, now_ms);
    let first = if s.outgoing.len() == 0 {
        Seq::<Seq<u8>>::empty()
    } else {
        seq![send_bytes(s)]
    };
    first + due_payloads(q.pending, now_ms, q.rtt.rto_ms)
}

/// What a tick sends.
pub open spec fn tick_output(s: SspView, now_ms: u64) -> Seq<Seq<u8>> {
    let work = work_output(s, now_ms);
    if work.len() == 0 && heartbeat_due(queued(s, now_ms), now_ms) {
        seq![heartbeat_bytes(s)]
    } else {
        work
    }
}

/// The state after a tick.
pub open spec fn ticked(s: SspView, now_ms: u64) -> SspView {
    let q = queued(s, now_ms);
    let r = SspView { pending: refreshed(q.pending, now_ms, q.rtt.rto_ms), ..q };
    if work_output(s, now_ms).len() == 0 && heartbeat_due(q, now_ms) {
        SspView { last_send_ms: now_ms, ..r }
    } else {
        r
    }
}

/// How many pending messages at the front are numbered at most `ack_num`.
pub open spec fn acked_count(pending: Seq<PendingView>, ack_num: u64) -> nat
    decreases pending.len(),
{
    if pending.len() > 0 && pending[0].num <= ack_num {
        1 + acked_count(pending.skip(1), ack_num)
    } else {
        0
    }
}

/// The estimator after the acknowledged messages retired: each that was
/// never sent again gives one sample, the time since it was sent; one that
/// was sent again gives none.
pub open spec fn rtt_after(rtt: RttView, retired: Seq<PendingView>, now_ms: u64) -> RttView
    decreases retired.len(),
{
    if retired.len() == 0 {
        rtt
    } else {
        let before = rtt_after(rtt, retired.drop_last(), now_ms);
        let p = retired.last();
        if p.retransmit_count == 0 {
            updated(before, elapsed(now_ms, p.sent_at_ms))
        } else {
            before
        }
    }
}

/// The state after an acknowledgement: unchanged where it is not newer
/// than the last.
pub open spec fn acked(s: SspView, ack_num: u64, now_ms: u64) -> SspView {
    if ack_num <= s.last_acked {
        s
    } else {
        let k = acked_count(s.pending, ack_num) as int;
        SspView {
            last_acked: ack_num,
            pending: s.pending.skip(k),
            rtt: rtt_after(s.rtt, s.pending.take(k), now_ms),
            ..s
        }
    }
}

/// Whether a message of the peer is new: not a heartbeat, and numbered
/// above everything taken so far.
pub open spec fn is_fresh(s: SspView, instr: InstructionView) -> bool {
    or_zero(instr.new_num) != 0 && or_zero(instr.new_num) > s.last_recv_num
}

/// The state after a message of the peer came.
pub open spec fn received(s: SspView, instr: InstructionView, now_ms: u64) -> SspView {
    let a = acked(s, or_zero(instr.ack_num), now_ms);
    SspView {
        peer_throwaway_num: if or_zero(instr.throwaway_num) > s.peer_throwaway_num {
            or_zero(instr.throwaway_num)
        } else {
            s.peer_throwaway_num
        },
        last_recv_ms: now_ms,
        last_recv_num: if is_fresh(s, instr) {
            or_zero(instr.new_num)
        } else {
            s.last_recv_num
        },
        ..a
    }
}

/// The bytes that a message of the peer delivers: its `diff`, where the
/// message is new and carries one.
pub open spec fn delivered(s: SspView, instr: InstructionView) -> Option<Seq<u8>> {
    if is_fresh(s, instr) && carries_diff(instr) {
        Some(diff_of(instr))
    } else {
        None
    }
}

} // verus!
