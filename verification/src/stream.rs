//! The duplex byte stream between the host and the transport: two buffers
//! that do not touch each other, and two counters.

use std::collections::VecDeque;
use vstd::prelude::*;

verus! {

/// The mathematical content of a `StreamChannel`.
pub struct StreamView {
    /// Bytes received and not yet read by the host, oldest first.
    pub recv: Seq<u8>,
    /// Bytes written by the host and not yet taken by the transport.
    pub send: Seq<u8>,
    /// All bytes ever received, modulo 2^64.
    pub total_received: u64,
    /// All bytes ever taken by the transport, modulo 2^64.
    pub total_sent: u64,
}

/// A counter after `n` more bytes, modulo 2^64.
pub open spec fn counted(total: u64, n: nat) -> u64 {
    ((total + n) % 0x1_0000_0000_0000_0000) as u64
}

/// Buffers between the host's reads and writes and the transport's packets.
pub struct StreamChannel {
    recv_buffer: VecDeque<u8>,
    send_buffer: Vec<u8>,
    total_received: u64,
    total_sent: u64,
}

impl View for StreamChannel {
    type V = StreamView;

    closed spec fn view(&self) -> StreamView {
        StreamView {
            recv: self.recv_buffer@,
            send: self.send_buffer@,
            total_received: self.total_received,
            total_sent: self.total_sent,
        }
    }
}

/// Adds a length to a counter, modulo 2^64.
fn count(total: u64, n: usize) -> (r: u64)
    ensures
        r == counted(total, n as nat),
{
    let r = total.wrapping_add(n as u64);
    assert(r == counted(total, n as nat)) by {
        if total + n > u64::MAX {
            assert((total + n) as int % 0x1_0000_0000_0000_0000 == total + n
                - 0x1_0000_0000_0000_0000);
        }
    }
    r
}

impl StreamChannel {
    /// A channel with both buffers empty and both counters at 0.
    pub fn new() -> (c: StreamChannel)
        ensures
            c@ == (StreamView {
                recv: Seq::empty(),
                send: Seq::empty(),
                total_received: 0,
                total_sent: 0,
            }),
    {
        StreamChannel {
            recv_buffer: VecDeque::new(),
            send_buffer: Vec::new(),
            total_received: 0,
            total_sent: 0,
        }
    }

    /// Queues bytes of the host for the transport.
    pub fn write(&mut self, data: &[u8])
        ensures
            final(self)@ == (StreamView { send: old(self)@.send + data@, ..old(self)@ }),
    {
        self.send_buffer.extend_from_slice(data);
        assert(self@.send =~= old(self)@.send + data@);
    }

    /// Hands the queued bytes to the transport, all at once, and counts
    /// them.
    pub fn take_pending_diff(&mut self) -> (diff: Vec<u8>)
        ensures
            diff@ == old(self)@.send,
            final(self)@ == (StreamView {
                send: Seq::empty(),
                total_sent: counted(old(self)@.total_sent, old(self)@.send.len()),
                ..old(self)@
            }),
    {
        let mut diff: Vec<u8> = Vec::new();
        core::mem::swap(&mut self.send_buffer, &mut diff);
        self.total_sent = count(self.total_sent, diff.len());
        diff
    }

    /// Queues bytes of the transport for the host, and counts them.
    pub fn apply_diff(&mut self, diff: &[u8])
        ensures
            final(self)@ == (StreamView {
                recv: old(self)@.recv + diff@,
                total_received: counted(old(self)@.total_received, diff@.len()),
                ..old(self)@
            }),
    {
        let mut i: usize = 0;
        while i < diff.len()
            invariant
                i <= diff.len(),
                self@ == (StreamView {
                    recv: old(self)@.recv + diff@.take(i as int),
                    ..old(self)@
                }),
            decreases diff.len() - i,
        {
            self.recv_buffer.push_back(diff[i]);
            assert(diff@.take(i + 1) =~= diff@.take(i as int).push(diff@[i as int]));
            assert(self@.recv =~= old(self)@.recv + diff@.take(i + 1));
            i = i + 1;
        }
        assert(diff@.take(i as int) =~= diff@);
        self.total_received = count(self.total_received, diff.len());
    }

    /// Hands the host every byte that is queued for it, oldest first.
    pub fn read_available(&mut self) -> (data: Vec<u8>)
        ensures
            data@ == old(self)@.recv,
            final(self)@ == (StreamView { recv: Seq::empty(), ..old(self)@ }),
    {
        let mut data: Vec<u8> = Vec::new();
        let mut more: bool = true;
        while more
            invariant
                data@ + self@.recv == old(self)@.recv,
                self@ == (StreamView { recv: self@.recv, ..old(self)@ }),
                !more ==> self@.recv.len() == 0,
            decreases self@.recv.len() + (if more { 1nat } else { 0nat }),
        {
            let ghost before = self@.recv;
            let ghost read = data@;
            match self.recv_buffer.pop_front() {
                Some(byte) => {
                    data.push(byte);
                    assert(data@ + self@.recv =~= read + before);
                },
                None => {
                    more = false;
                },
            }
        }
        assert(data@ =~= old(self)@.recv);
        assert(self@.recv =~= Seq::<u8>::empty());
        data
    }

    /// Whether bytes are queued for the host.
    pub fn has_pending_read(&self) -> (b: bool)
        ensures
            b == (self@.recv.len() > 0),
    {
        self.recv_buffer.len() > 0
    }

    /// Whether bytes are queued for the transport.
    pub fn has_pending_write(&self) -> (b: bool)
        ensures
            b == (self@.send.len() > 0),
    {
        self.send_buffer.len() > 0
    }

    /// How many bytes are queued for the host.
    pub fn recv_buffer_len(&self) -> (n: usize)
        ensures
            n == self@.recv.len(),
    {
        self.recv_buffer.len()
    }

    /// How many bytes are queued for the transport.
    pub fn send_buffer_len(&self) -> (n: usize)
        ensures
            n == self@.send.len(),
    {
        self.send_buffer.len()
    }

    /// All bytes ever received, modulo 2^64.
    pub fn total_received_bytes(&self) -> (n: u64)
        ensures
            n == self@.total_received,
    {
        self.total_received
    }

    /// All bytes ever taken by the transport, modulo 2^64.
    pub fn total_sent_bytes(&self) -> (n: u64)
        ensures
            n == self@.total_sent,
    {
        self.total_sent
    }
}

impl Default for StreamChannel {
    fn default() -> (c: StreamChannel)
        ensures
            c@ == (StreamView {
                recv: Seq::empty(),
                send: Seq::empty(),
                total_received: 0,
                total_sent: 0,
            }),
    {
        StreamChannel::new()
    }
}

} // verus!
