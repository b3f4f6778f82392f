//! The session: the state machine in executable form.

use std::collections::VecDeque;
use vstd::prelude::*;
use crate::proto::instruction::{ack_instruction, Instruction};
use crate::ssp::model::{
    acked,
    acked_count,
    delivered,
    due_payloads,
    heartbeat_bytes,
    heartbeat_due,
    new_session,
    pushed,
    queued,
    received,
    refreshed,
    refreshed_one,
    rtt_after,
    send_bytes,
    ticked,
    tick_output,
    wf,
    work_output,
    PendingView,
    SspView,
};
use crate::ssp::rtt::{rtt_wf, RttEstimator};
use crate::ssp::HEARTBEAT_INTERVAL_MS;

verus! {

/// A message that was sent and is not yet acknowledged.
struct PendingInstruction {
    num: u64,
    payload: Vec<u8>,
    sent_at_ms: u64,
    retransmit_count: u32,
}

impl View for PendingInstruction {
    type V = PendingView;

    closed spec fn view(&self) -> PendingView {
        PendingView {
            num: self.num,
            payload: self.payload@,
            sent_at_ms: self.sent_at_ms,
            retransmit_count: self.retransmit_count,
        }
    }
}

/// The views of the pending messages.
spec fn pending_views(pending: Seq<PendingInstruction>) -> Seq<PendingView> {
    pending.map_values(|p: PendingInstruction| p@)
}

/// Whether a state is possible depends on the queue, the next number and
/// the estimator alone.
proof fn lemma_wf_of_queue(a: SspView, b: SspView)
    requires
        wf(a),
        a.pending == b.pending,
        a.next_send_num == b.next_send_num,
        a.rtt == b.rtt,
    ensures
        wf(b),
{
    assert forall|i: int| 0 <= i < b.pending.len() implies (#[trigger] b.pending[i]).num + (
    b.pending.len() - i) == b.next_send_num by {
        assert(a.pending[i] == b.pending[i]);
    }
}

/// The views of a list of byte strings.
pub open spec fn payload_views(list: Seq<Vec<u8>>) -> Seq<Seq<u8>> {
    list.map_values(|v: Vec<u8>| v@)
}

/// One end of the transport: what was sent and awaits acknowledgement, what
/// came, and how long a round trip takes.
pub struct SspSession {
    next_send_num: u64,
    last_acked: u64,
    pending: VecDeque<PendingInstruction>,
    outgoing_diff: Vec<u8>,
    last_send_ms: u64,
    last_recv_num: u64,
    throwaway_num: u64,
    last_recv_ms: u64,
    rtt: RttEstimator,
}

impl View for SspSession {
    type V = SspView;

    closed spec fn view(&self) -> SspView {
        SspView {
            next_send_num: self.next_send_num,
            last_acked: self.last_acked,
            pending: pending_views(self.pending@),
            outgoing: self.outgoing_diff@,
            last_send_ms: self.last_send_ms,
            last_recv_num: self.last_recv_num,
            peer_throwaway_num: self.throwaway_num,
            last_recv_ms: self.last_recv_ms,
            rtt: self.rtt@,
        }
    }
}

/// What a session tells about itself.
#[derive(Debug, Clone)]
pub struct SspStats {
    /// The smoothed round-trip time in units of 2^-32 ms; 0 before any
    /// sample.
    pub srtt_q32: u128,
    /// The retransmission timeout, in milliseconds.
    pub rto_ms: u64,
    /// The number of the next message with a payload.
    pub send_num: u64,
    /// The newest message of the peer that was taken.
    pub recv_num: u64,
    /// How many messages await acknowledgement.
    pub pending_count: usize,
}

impl SspSession {
    /// A new session: the first message will be number 1, the timeout is
    /// 1000 ms.
    pub fn new() -> (s: SspSession)
        ensures
            s@ == new_session(),
            wf(s@),
    {
        let s = SspSession {
            next_send_num: 1,
            last_acked: 0,
            pending: VecDeque::new(),
            outgoing_diff: Vec::new(),
            last_send_ms: 0,
            last_recv_num: 0,
            throwaway_num: 0,
            last_recv_ms: 0,
            rtt: RttEstimator::new(),
        };
        assert(s@.pending =~= Seq::empty());
        s
    }

    /// Queues bytes for the next tick.
    pub fn push_payload(&mut self, diff: Vec<u8>)
        ensures
            final(self)@ == pushed(old(self)@, diff@),
            wf(old(self)@) ==> wf(final(self)@),
    {
        self.outgoing_diff.extend_from_slice(diff.as_slice());
        assert(self@.outgoing =~= old(self)@.outgoing + diff@);
    }

    /// The heartbeat of this moment: it acknowledges what came and carries
    /// nothing.
    pub fn make_ack(&self, _now_ms: u64) -> (i: Instruction)
        ensures
            i@ == ack_instruction(self@.last_recv_num, self@.peer_throwaway_num),
    {
        Instruction::new_ack(self.last_recv_num, self.throwaway_num)
    }

    /// Whether nothing new was sent for 3000 ms.
    pub fn needs_heartbeat(&self, now_ms: u64) -> (b: bool)
        ensures
            b == heartbeat_due(self@, now_ms),
    {
        now_ms.saturating_sub(self.last_send_ms) >= HEARTBEAT_INTERVAL_MS
    }

    /// What the session tells about itself. The timeout is always within
    /// 50 and 1000 ms.
    pub fn stats(&self) -> (st: SspStats)
        requires
            wf(self@),
        ensures
            st.srtt_q32 == self@.rtt.srtt,
            st.rto_ms == self@.rtt.rto_ms,
            50 <= st.rto_ms <= 1000,
            st.send_num == self@.next_send_num,
            st.recv_num == self@.last_recv_num,
            st.pending_count == self@.pending.len(),
    {
        SspStats {
            srtt_q32: self.rtt.srtt(),
            rto_ms: self.rtt.rto_ms(),
            send_num: self.next_send_num,
            recv_num: self.last_recv_num,
            pending_count: self.pending.len(),
        }
    }
}

impl SspSession {
    /// Builds the message that carries `diff`, and takes its number.
    fn make_send_instruction(&mut self, diff: Vec<u8>, _now_ms: u64) -> (i: Instruction)
        requires
            old(self)@.next_send_num < u64::MAX,
        ensures
            i@ == crate::proto::instruction::send_instruction(
                old(self)@.last_acked,
                old(self)@.next_send_num,
                old(self)@.last_recv_num,
                old(self)@.peer_throwaway_num,
                diff@,
            ),
            final(self)@ == (SspView {
                next_send_num: (old(self)@.next_send_num + 1) as u64,
                ..old(self)@
            }),
    {
        let old_num = self.last_acked;
        let new_num = self.next_send_num;
        self.next_send_num = new_num + 1;
        let throwaway_num = self.throwaway_num;
        let ack_num = self.last_recv_num;
        Instruction::new_send(old_num, new_num, ack_num, throwaway_num, diff)
    }

    /// Puts a message that was just sent at the end of the queue.
    fn enqueue_pending(&mut self, num: u64, payload: Vec<u8>, now_ms: u64)
        ensures
            final(self)@ == (SspView {
                pending: old(self)@.pending.push(
                    PendingView { num, payload: payload@, sent_at_ms: now_ms, retransmit_count: 0 },
                ),
                last_send_ms: now_ms,
                ..old(self)@
            }),
    {
        self.pending.push_back(
            PendingInstruction { num, payload, sent_at_ms: now_ms, retransmit_count: 0 },
        );
        self.last_send_ms = now_ms;
        assert(self@.pending =~= old(self)@.pending.push(
            PendingView { num, payload: payload@, sent_at_ms: now_ms, retransmit_count: 0 },
        ));
    }

    /// Retires the pending messages that `ack_num` covers, and takes a
    /// round-trip sample from each that was sent only once.
    fn process_ack(&mut self, ack_num: u64, now_ms: u64)
        requires
            wf(old(self)@),
        ensures
            final(self)@ == acked(old(self)@, ack_num, now_ms),
            wf(final(self)@),
    {
        if ack_num <= self.last_acked {
            return ;
        }
        let ghost start = self@.pending;
        let ghost rtt0 = self@.rtt;
        let ghost mut k: int = 0;
        let mut more: bool = true;
        proof {
            assert(start.skip(0) =~= start);
            assert(start.take(0) =~= Seq::<PendingView>::empty());
        }
        while more
            invariant
                0 <= k <= start.len(),
                start == old(self)@.pending,
                rtt0 == old(self)@.rtt,
                self@ == (SspView {
                    pending: start.skip(k),
                    rtt: rtt_after(rtt0, start.take(k), now_ms),
                    ..old(self)@
                }),
                acked_count(start, ack_num) == k + acked_count(start.skip(k), ack_num),
                rtt_wf(self@.rtt),
                !more ==> acked_count(start.skip(k), ack_num) == 0,
            decreases self.pending.len() + (if more { 1nat } else { 0nat }),
        {
            if self.pending.len() == 0 {
                more = false;
            } else if self.pending[0].num > ack_num {
                assert(start.skip(k)[0] == self.pending@[0]@);
                more = false;
            } else {
                let ghost before = self.pending@;
                let ghost views_before = self@.pending;
                assert(views_before == start.skip(k));
                assert(views_before[0] == before[0]@);
                match self.pending.pop_front() {
                    Some(p) => {
                        if p.retransmit_count == 0 {
                            self.rtt.update(now_ms.saturating_sub(p.sent_at_ms));
                        }
                        proof {
                            assert(self.pending@ == before.subrange(1, before.len() as int));
                            assert(pending_views(self.pending@) =~= views_before.skip(1));
                            assert(start.skip(k).skip(1) =~= start.skip(k + 1));
                            assert(start.take(k + 1).drop_last() =~= start.take(k));
                            assert(start.take(k + 1).last() == p@);
                            k = k + 1;
                        }
                    },
                    None => {},
                }
            }
        }
        self.last_acked = ack_num;
        proof {
            let after = acked(old(self)@, ack_num, now_ms);
            assert(self@.pending == after.pending);
            assert forall|i: int| 0 <= i < self@.pending.len() implies (
            #[trigger] self@.pending[i]).num + (self@.pending.len() - i)
                == self@.next_send_num by {
                assert(self@.pending[i] == start[k + i]);
            }
        }
    }

    /// Takes a message of the peer: its acknowledgement retires what it
    /// covers, its throwaway mark is kept where it is higher, and its
    /// `diff` is handed on where the message is new. A heartbeat, and a
    /// message numbered at or below what was taken before, hand on nothing.
    pub fn recv_instruction(&mut self, instr: &Instruction, now_ms: u64) -> (r: Option<Vec<u8>>)
        requires
            wf(old(self)@),
        ensures
            final(self)@ == received(old(self)@, instr@, now_ms),
            wf(final(self)@),
            r is Some <==> delivered(old(self)@, instr@) is Some,
            r matches Some(bytes) ==> delivered(old(self)@, instr@) == Some(bytes@),
    {
        let new_num = instr.new_num_or_zero();
        let ack_num = instr.ack_num_or_zero();
        let throwaway_num = instr.throwaway_num_or_zero();

        self.process_ack(ack_num, now_ms);
        let ghost mid = self@;

        if throwaway_num > self.throwaway_num {
            self.throwaway_num = throwaway_num;
        }
        self.last_recv_ms = now_ms;
        proof {
            lemma_wf_of_queue(mid, self@);
        }

        if new_num == 0 {
            return None;
        }
        if new_num <= self.last_recv_num {
            return None;
        }
        self.last_recv_num = new_num;
        proof {
            lemma_wf_of_queue(mid, self@);
        }

        if instr.has_diff() {
            match &instr.diff {
                Some(d) => {
                    let bytes = d.clone();
                    assert(bytes@ =~= d@);
                    Some(bytes)
                },
                None => None,
            }
        } else {
            None
        }
    }
}

impl SspSession {
    /// Sends again every pending message that has waited for the timeout:
    /// its bytes are appended to `to_send`, its time is set to now, and its
    /// count goes up by one, up to `u32::MAX`.
    fn retransmit_due(&mut self, now_ms: u64, to_send: &mut Vec<Vec<u8>>)
        ensures
            final(self)@ == (SspView {
                pending: refreshed(old(self)@.pending, now_ms, old(self)@.rtt.rto_ms),
                ..old(self)@
            }),
            payload_views(final(to_send)@) == payload_views(old(to_send)@) + due_payloads(
                old(self)@.pending,
                now_ms,
                old(self)@.rtt.rto_ms,
            ),
    {
        let rto = self.rtt.rto_ms();
        let n = self.pending.len();
        let ghost start = self@.pending;
        let ghost sent = payload_views(to_send@);
        let mut i: usize = 0;
        proof {
            assert(start.skip(0) =~= start);
            assert(start.take(0) =~= Seq::<PendingView>::empty());
            assert(refreshed(start.take(0), now_ms, rto) =~= Seq::<PendingView>::empty());
            assert(self@.pending =~= start.skip(0) + refreshed(start.take(0), now_ms, rto));
            assert(payload_views(to_send@) =~= sent + due_payloads(start.take(0), now_ms, rto));
        }
        while i < n
            invariant
                i <= n,
                n == start.len(),
                start == old(self)@.pending,
                rto == old(self)@.rtt.rto_ms,
                sent == payload_views(old(to_send)@),
                self.pending@.len() == n,
                self@ == (SspView {
                    pending: start.skip(i as int) + refreshed(start.take(i as int), now_ms, rto),
                    ..old(self)@
                }),
                payload_views(to_send@) == sent + due_payloads(start.take(i as int), now_ms, rto),
            decreases n - i,
        {
            let ghost before = self.pending@;
            let ghost views_before = self@.pending;
            let ghost sent_before = payload_views(to_send@);
            assert(views_before[0] == start[i as int]);
            assert(views_before[0] == before[0]@);
            match self.pending.pop_front() {
                Some(p) => {
                    let mut p = p;
                    if now_ms.saturating_sub(p.sent_at_ms) >= rto {
                        p.sent_at_ms = now_ms;
                        p.retransmit_count = p.retransmit_count.saturating_add(1);
                        let copy = p.payload.clone();
                        assert(copy@ =~= p.payload@);
                        to_send.push(copy);
                        assert(payload_views(to_send@) =~= sent_before.push(p.payload@));
                    }
                    assert(p@ == refreshed_one(start[i as int], now_ms, rto));
                    self.pending.push_back(p);
                    proof {
                        let j = i as int;
                        assert(start.take(j + 1).drop_last() =~= start.take(j));
                        assert(start.take(j + 1).last() == start[j]);
                        assert(pending_views(self.pending@) =~= views_before.skip(1).push(p@));
                        assert(views_before.skip(1).push(p@) =~= start.skip(j + 1) + refreshed(
                            start.take(j + 1),
                            now_ms,
                            rto,
                        ));
                    }
                },
                None => {},
            }
            i = i + 1;
        }
        proof {
            assert(start.take(n as int) =~= start);
            assert(start.skip(n as int) + refreshed(start, now_ms, rto) =~= refreshed(
                start,
                now_ms,
                rto,
            ));
        }
    }

    /// One step of the clock. Gives the messages to send now, each as bytes:
    /// first a new message with all that was queued, if anything was; then
    /// every pending message that has waited for the timeout; and if that
    /// is nothing and nothing new was sent for 3000 ms, one heartbeat.
    ///
    /// A new message needs a number: the numbers below `u64::MAX` are there
    /// to be used.
    pub fn tick(&mut self, now_ms: u64) -> (to_send: Vec<Vec<u8>>)
        requires
            wf(old(self)@),
            old(self)@.outgoing.len() > 0 ==> old(self)@.next_send_num < u64::MAX,
        ensures
            final(self)@ == ticked(old(self)@, now_ms),
            payload_views(to_send@) == tick_output(old(self)@, now_ms),
            wf(final(self)@),
    {
        let mut to_send: Vec<Vec<u8>> = Vec::new();
        assert(payload_views(to_send@) =~= Seq::<Seq<u8>>::empty());

        if self.outgoing_diff.len() > 0 {
            let mut diff: Vec<u8> = Vec::new();
            core::mem::swap(&mut self.outgoing_diff, &mut diff);
            let instr = self.make_send_instruction(diff, now_ms);
            let bytes = instr.encode_to_bytes();
            let copy = bytes.clone();
            assert(copy@ =~= bytes@);
            self.enqueue_pending(instr.new_num_or_zero(), copy, now_ms);
            to_send.push(bytes);
            assert(payload_views(to_send@) =~= seq![send_bytes(old(self)@)]);
        }
        assert(self@ == queued(old(self)@, now_ms));
        let ghost q = self@;
        proof {
            assert forall|i: int| 0 <= i < q.pending.len() implies (#[trigger] q.pending[i]).num
                + (q.pending.len() - i) == q.next_send_num by {
                if i < old(self)@.pending.len() {
                    assert(q.pending[i] == old(self)@.pending[i]);
                }
            }
        }

        self.retransmit_due(now_ms, &mut to_send);
        assert(payload_views(to_send@) == work_output(old(self)@, now_ms));
        proof {
            assert forall|i: int| 0 <= i < self@.pending.len() implies (
            #[trigger] self@.pending[i]).num + (self@.pending.len() - i)
                == self@.next_send_num by {
                assert(self@.pending[i].num == q.pending[i].num);
            }
        }

        if to_send.len() == 0 && self.needs_heartbeat(now_ms) {
            let ack_instr = self.make_ack(now_ms);
            to_send.push(ack_instr.encode_to_bytes());
            let ghost mid = self@;
            self.last_send_ms = now_ms;
            proof {
                lemma_wf_of_queue(mid, self@);
                assert(payload_views(to_send@) =~= seq![heartbeat_bytes(old(self)@)]);
            }
        }
        to_send
    }
}

impl Default for SspSession {
    fn default() -> (s: SspSession)
        ensures
            s@ == new_session(),
            wf(s@),
    {
        SspSession::new()
    }
}

} // verus!
