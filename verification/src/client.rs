//! The client: one object that turns datagrams into bytes for the host and
//! bytes of the host into datagrams.
//!
//! Incoming: open the datagram, read the fragment, put the message
//! together, read the instruction, let the session take it, and hand the
//! host what it delivers. A datagram that fails at any of these steps is
//! dropped without a word. Outgoing: queue the host's bytes, let the
//! session tick, split each message it wants sent, and seal each fragment
//! as a datagram of its own.

use vstd::prelude::*;
use crate::crypto::direction::Direction;
use crate::crypto::error::CryptoError;
use crate::crypto::key::key_of_text;
use crate::crypto::session::{
    opened,
    CryptoSession,
    CryptoView,
};
use crate::egress::{
    all_carry,
    carries,
    fragmenter_after,
    fragments_of_all,
    lemma_all_carry_more,
    lemma_sealed_run_step,
    lemma_sent_all_fragmenter,
    lemma_sealed_run_stuck,
    lemma_sent_all_step,
    lemma_sent_all_stuck,
    sealed_run,
    sent_all,
};
use crate::proto::decode::decoded;
use crate::proto::instruction::{Instruction, InstructionView};
use crate::ssp::model::{
    delivered,
    new_session,
    pushed,
    received,
    ticked,
    tick_output,
    wf,
    SspView,
};
use crate::ssp::session::{payload_views, SspSession};
use crate::stream::{counted, StreamChannel, StreamView};
use crate::transport::assembly::{accept, empty_assembly, output, AssemblyView, FragmentAssembly};
use crate::transport::fragment::{
    fragments_of,
    next_id,
    parse_fragment,
    views,
    Fragment,
    FragmentView,
    Fragmenter,
    FragmenterView,
};
use crate::transport::timestamp::Timestamp16;

verus! {

/// The size of a datagram that is assumed where the host names none.
pub const DEFAULT_MTU: u32 = 500;

/// The bytes of a datagram that are not payload: nonce tail 8, tag 16,
/// sequence number 8, two timestamps of 2, fragment header 10.
pub const CRYPTO_OVERHEAD: usize = 46;

/// The least payload of a fragment, however small the datagram.
pub const MIN_PAYLOAD: usize = 64;

/// The mathematical content of a `MoshClient`.
pub struct ClientView {
    pub crypto: CryptoView,
    pub fragmenter: FragmenterView,
    pub assembly: AssemblyView,
    pub ssp: SspView,
    pub stream: StreamView,
    /// The timestamp of the last datagram that opened, to be echoed.
    pub last_remote_timestamp: u16,
}

/// The payload that a fragment may have in datagrams of size `mtu`: what
/// the overhead leaves, and at least 64 bytes.
pub open spec fn payload_mtu(mtu: Option<u32>) -> nat {
    let size = match mtu {
        Some(m) => m as nat,
        None => 500,
    };
    if size >= 46 + 64 {
        (size - 46) as nat
    } else {
        64
    }
}

/// The state of a new client on a key.
pub open spec fn new_client(key: Seq<u8>, mtu: Option<u32>) -> ClientView {
    ClientView {
        crypto: CryptoView { key, send_seq: 0, recv_seq: 0 },
        fragmenter: FragmenterView { next_instruction_id: 1, mtu: payload_mtu(mtu) },
        assembly: empty_assembly(),
        ssp: new_session(),
        stream: StreamView {
            recv: Seq::empty(),
            send: Seq::empty(),
            total_received: 0,
            total_sent: 0,
        },
        last_remote_timestamp: 0xFFFF,
    }
}

/// Whether a state is one that a client can be in between two calls: the
/// session is possible, fragments have room, and nothing waits half-way to
/// the session.
pub open spec fn client_wf(c: ClientView) -> bool {
    &&& wf(c.ssp)
    &&& c.fragmenter.mtu >= 64
    &&& c.ssp.outgoing.len() == 0
    &&& c.stream.send.len() == 0
}

/// The state after the session took a message, and the stream what it
/// delivers, and the host read the stream.
pub open spec fn after_instruction(c: ClientView, instr: InstructionView, now_ms: u64)
    -> ClientView {
    let took = match delivered(c.ssp, instr) {
        Some(bytes) => StreamView {
            total_received: counted(c.stream.total_received, bytes.len()),
            ..c.stream
        },
        None => c.stream,
    };
    ClientView {
        ssp: received(c.ssp, instr, now_ms),
        stream: StreamView { recv: Seq::empty(), ..took },
        ..c
    }
}

/// What the host reads after the session took a message: what waited for
/// it, then what the message delivers.
pub open spec fn instruction_output(c: ClientView, instr: InstructionView) -> Seq<u8> {
    match delivered(c.ssp, instr) {
        Some(bytes) => c.stream.recv + bytes,
        None => c.stream.recv,
    }
}

/// The state after a fragment came out of a datagram.
pub open spec fn after_fragment(c: ClientView, f: FragmentView, now_ms: u64) -> ClientView {
    let assembly = accept(c.assembly, f);
    let joined = ClientView { assembly, ..c };
    match output(assembly) {
        None => joined,
        Some(bytes) => match decoded(bytes) {
            Err(_) => joined,
            Ok(instr) => after_instruction(joined, instr, now_ms),
        },
    }
}

/// What the host gets after a fragment came out of a datagram.
pub open spec fn fragment_output(c: ClientView, f: FragmentView) -> Seq<u8> {
    let assembly = accept(c.assembly, f);
    match output(assembly) {
        None => Seq::empty(),
        Some(bytes) => match decoded(bytes) {
            Err(_) => Seq::empty(),
            Ok(instr) => instruction_output(ClientView { assembly, ..c }, instr),
        },
    }
}

/// The state after a datagram came. One that does not open changes
/// nothing; one that opens leaves its counter and timestamp even where
/// what it holds is no fragment.
pub open spec fn after_datagram(c: ClientView, packet: Seq<u8>, now_ms: u64) -> ClientView {
    match opened(c.crypto.key, packet) {
        Err(_) => c,
        Ok(p) => {
            let noted = ClientView {
                crypto: CryptoView { recv_seq: p.seq, ..c.crypto },
                last_remote_timestamp: p.timestamp,
                ..c
            };
            if p.payload.len() < 10 {
                noted
            } else {
                after_fragment(noted, parse_fragment(p.payload), now_ms)
            }
        },
    }
}

/// What the host gets when a datagram came.
pub open spec fn datagram_output(c: ClientView, packet: Seq<u8>) -> Seq<u8> {
    match opened(c.crypto.key, packet) {
        Err(_) => Seq::empty(),
        Ok(p) => if p.payload.len() < 10 {
            Seq::empty()
        } else {
            fragment_output(c, parse_fragment(p.payload))
        },
    }
}

/// The state with more bytes of the host queued.
pub open spec fn written(c: ClientView, data: Seq<u8>) -> ClientView {
    ClientView { stream: StreamView { send: c.stream.send + data, ..c.stream }, ..c }
}

/// The session after it was handed what the stream had queued.
pub open spec fn fed(c: ClientView) -> SspView {
    if c.stream.send.len() > 0 {
        pushed(c.ssp, c.stream.send)
    } else {
        c.ssp
    }
}

/// The timestamp that goes out at a time.
pub open spec fn timestamp_at(now_ms: u64) -> u16 {
    (now_ms % 0x1_0000) as u16
}

/// The state after everything due went out: the stream's queue went to
/// the session, the session ticked, and each message it wanted sent was
/// split and sealed.
pub open spec fn flushed(c: ClientView, now_ms: u64) -> ClientView {
    let ssp = fed(c);
    let went = sent_all(
        c.crypto,
        c.fragmenter,
        timestamp_at(now_ms),
        c.last_remote_timestamp,
        tick_output(ssp, now_ms),
    );
    ClientView {
        crypto: went.0,
        fragmenter: went.1,
        ssp: ticked(ssp, now_ms),
        stream: StreamView {
            send: Seq::empty(),
            total_sent: counted(c.stream.total_sent, c.stream.send.len()),
            ..c.stream
        },
        ..c
    }
}

/// The datagrams that go out, or the error of the first fragment that did
/// not seal.
pub open spec fn flush_output(c: ClientView, now_ms: u64) -> Result<Seq<Seq<u8>>, CryptoError> {
    sent_all(
        c.crypto,
        c.fragmenter,
        timestamp_at(now_ms),
        c.last_remote_timestamp,
        tick_output(fed(c), now_ms),
    ).2
}

/// Whether a result of datagrams is what the model says.
pub open spec fn same_result(
    r: Result<Vec<Vec<u8>>, CryptoError>,
    model: Result<Seq<Seq<u8>>, CryptoError>,
) -> bool {
    match r {
        Ok(packets) => model == Ok::<Seq<Seq<u8>>, CryptoError>(payload_views(packets@)),
        Err(e) => model == Err::<Seq<Seq<u8>>, CryptoError>(e),
    }
}

/// One end of a connection, as the host holds it.
pub struct MoshClient {
    crypto: CryptoSession,
    fragmenter: Fragmenter,
    assembly: FragmentAssembly,
    ssp: SspSession,
    stream: StreamChannel,
    last_remote_timestamp: u16,
}

impl View for MoshClient {
    type V = ClientView;

    closed spec fn view(&self) -> ClientView {
        ClientView {
            crypto: self.crypto@,
            fragmenter: self.fragmenter@,
            assembly: self.assembly@,
            ssp: self.ssp@,
            stream: self.stream@,
            last_remote_timestamp: self.last_remote_timestamp,
        }
    }
}

/// What a client tells about itself.
#[derive(Debug, Clone)]
pub struct ClientStats {
    /// The smoothed round-trip time in units of 2^-32 ms.
    pub srtt_q32: u128,
    /// The retransmission timeout, in milliseconds.
    pub rto_ms: u64,
    /// The number of the next message with a payload.
    pub send_num: u64,
    /// The newest message of the peer that was taken.
    pub recv_num: u64,
    /// How many messages await acknowledgement.
    pub pending_count: usize,
    /// All bytes of the host that went to the session, modulo 2^64.
    pub total_sent_bytes: u64,
    /// All bytes that the session delivered, modulo 2^64.
    pub total_recv_bytes: u64,
}

/// The payload size for a datagram size.
fn payload_mtu_of(mtu: Option<u32>) -> (r: usize)
    ensures
        r == payload_mtu(mtu),
{
    let size: u32 = match mtu {
        Some(m) => m,
        None => DEFAULT_MTU,
    };
    if size as usize >= CRYPTO_OVERHEAD + MIN_PAYLOAD {
        size as usize - CRYPTO_OVERHEAD
    } else {
        MIN_PAYLOAD
    }
}

impl MoshClient {
    /// A client on a key given as 22 characters of base64, for datagrams of
    /// `mtu` bytes (500 where none is named).
    pub fn new(key_base64: &str, mtu: Option<u32>) -> (r: Result<MoshClient, CryptoError>)
        ensures
            match r {
                Ok(c) => key_of_text(key_base64@) == Ok::<Seq<u8>, CryptoError>(c@.crypto.key)
                    && c@ == new_client(c@.crypto.key, mtu) && client_wf(c@),
                Err(e) => key_of_text(key_base64@) == Err::<Seq<u8>, CryptoError>(e),
            },
    {
        let crypto = match CryptoSession::from_base64_key(key_base64) {
            Ok(c) => c,
            Err(e) => { return Err(e); },
        };
        Ok(MoshClient::on_session(crypto, mtu))
    }

    /// A client on 16 raw key bytes. It never fails.
    pub fn with_key(key: [u8; 16], mtu: Option<u32>) -> (r: Result<MoshClient, CryptoError>)
        ensures
            r matches Ok(c) && c@ == new_client(key@, mtu) && client_wf(c@),
    {
        match CryptoSession::from_key(key) {
            Ok(crypto) => Ok(MoshClient::on_session(crypto, mtu)),
            Err(e) => Err(e),
        }
    }

    /// A client around a fresh packet session.
    fn on_session(crypto: CryptoSession, mtu: Option<u32>) -> (c: MoshClient)
        requires
            crypto@.send_seq == 0,
            crypto@.recv_seq == 0,
        ensures
            c@ == new_client(crypto@.key, mtu),
            client_wf(c@),
    {
        MoshClient {
            crypto,
            fragmenter: Fragmenter::new(payload_mtu_of(mtu)),
            assembly: FragmentAssembly::new(),
            ssp: SspSession::new(),
            stream: StreamChannel::new(),
            last_remote_timestamp: Timestamp16::init().raw(),
        }
    }

    /// Takes a datagram from the socket and gives the host the bytes that
    /// it completes, if any.
    pub fn recv_udp_packet(&mut self, udp_bytes: &[u8], now_ms: u64) -> (data: Vec<u8>)
        requires
            client_wf(old(self)@),
        ensures
            final(self)@ == after_datagram(old(self)@, udp_bytes@, now_ms),
            data@ == datagram_output(old(self)@, udp_bytes@),
            client_wf(final(self)@),
    {
        let decrypted = match self.crypto.decrypt_packet(udp_bytes) {
            Ok(p) => p,
            Err(_) => { return Vec::new(); },
        };
        self.last_remote_timestamp = decrypted.timestamp;

        let frag = match Fragment::from_bytes(decrypted.payload.as_slice()) {
            Ok(f) => f,
            Err(_) => { return Vec::new(); },
        };
        let instruction_bytes = match self.assembly.add_fragment(frag) {
            Some(bytes) => bytes,
            None => { return Vec::new(); },
        };
        let instr = match Instruction::decode_from_bytes(instruction_bytes.as_slice()) {
            Ok(i) => i,
            Err(_) => { return Vec::new(); },
        };
        let payload = self.ssp.recv_instruction(&instr, now_ms);
        match payload {
            Some(bytes) => {
                self.stream.apply_diff(bytes.as_slice());
            },
            None => {},
        }
        self.stream.read_available()
    }

    /// Whether bytes wait for the host.
    pub fn has_pending_read(&self) -> (b: bool)
        ensures
            b == (self@.stream.recv.len() > 0),
    {
        self.stream.has_pending_read()
    }

    /// Hands the host every byte that waits for it.
    pub fn read_pending(&mut self) -> (data: Vec<u8>)
        ensures
            data@ == old(self)@.stream.recv,
            final(self)@ == (ClientView {
                stream: StreamView { recv: Seq::empty(), ..old(self)@.stream },
                ..old(self)@
            }),
            client_wf(old(self)@) ==> client_wf(final(self)@),
    {
        self.stream.read_available()
    }

    /// What the client tells about itself.
    pub fn get_stats(&self) -> (st: ClientStats)
        requires
            client_wf(self@),
        ensures
            st.srtt_q32 == self@.ssp.rtt.srtt,
            st.rto_ms == self@.ssp.rtt.rto_ms,
            50 <= st.rto_ms <= 1000,
            st.send_num == self@.ssp.next_send_num,
            st.recv_num == self@.ssp.last_recv_num,
            st.pending_count == self@.ssp.pending.len(),
            st.total_sent_bytes == self@.stream.total_sent,
            st.total_recv_bytes == self@.stream.total_received,
    {
        let stats = self.ssp.stats();
        ClientStats {
            srtt_q32: stats.srtt_q32,
            rto_ms: stats.rto_ms,
            send_num: stats.send_num,
            recv_num: stats.recv_num,
            pending_count: stats.pending_count,
            total_sent_bytes: self.stream.total_sent_bytes(),
            total_recv_bytes: self.stream.total_received_bytes(),
        }
    }
}

impl MoshClient {
    /// Splits one message and seals each fragment as a datagram towards
    /// the server.
    fn encrypt_and_fragment(&mut self, instruction_bytes: &[u8], now_ms: u64) -> (r: Result<
        Vec<Vec<u8>>,
        CryptoError,
    >)
        requires
            old(self)@.fragmenter.mtu > 0,
        ensures
            same_result(
                r,
                sealed_run(
                    old(self)@.crypto,
                    timestamp_at(now_ms),
                    old(self)@.last_remote_timestamp,
                    fragments_of(
                        old(self)@.fragmenter.next_instruction_id,
                        instruction_bytes@,
                        old(self)@.fragmenter.mtu,
                    ),
                ).1,
            ),
            final(self)@ == (ClientView {
                crypto: sealed_run(
                    old(self)@.crypto,
                    timestamp_at(now_ms),
                    old(self)@.last_remote_timestamp,
                    fragments_of(
                        old(self)@.fragmenter.next_instruction_id,
                        instruction_bytes@,
                        old(self)@.fragmenter.mtu,
                    ),
                ).0,
                fragmenter: FragmenterView {
                    next_instruction_id: next_id(old(self)@.fragmenter.next_instruction_id),
                    ..old(self)@.fragmenter
                },
                ..old(self)@
            }),
            final(self)@.crypto.key == old(self)@.crypto.key,
            r matches Ok(packets) ==> all_carry(
                old(self)@.crypto.key,
                payload_views(packets@),
                fragments_of(
                    old(self)@.fragmenter.next_instruction_id,
                    instruction_bytes@,
                    old(self)@.fragmenter.mtu,
                ),
            ),
    {
        let fragments = self.fragmenter.make_fragments(instruction_bytes);
        let timestamp = Timestamp16::now_from_ms(now_ms).raw();
        let timestamp_reply = self.last_remote_timestamp;
        let ghost crypto0 = old(self)@.crypto;
        let ghost all = views(fragments@);

        let mut result: Vec<Vec<u8>> = Vec::new();
        let mut i: usize = 0;
        proof {
            assert(all.take(0) =~= Seq::<FragmentView>::empty());
            assert(payload_views(result@) =~= Seq::<Seq<u8>>::empty());
        }
        while i < fragments.len()
            invariant
                i <= fragments.len(),
                all == views(fragments@),
                all == fragments_of(
                    old(self)@.fragmenter.next_instruction_id,
                    instruction_bytes@,
                    old(self)@.fragmenter.mtu,
                ),
                timestamp == timestamp_at(now_ms),
                timestamp_reply == old(self)@.last_remote_timestamp,
                crypto0 == old(self)@.crypto,
                self@ == (ClientView {
                    crypto: self@.crypto,
                    fragmenter: FragmenterView {
                        next_instruction_id: next_id(old(self)@.fragmenter.next_instruction_id),
                        ..old(self)@.fragmenter
                    },
                    ..old(self)@
                }),
                sealed_run(crypto0, timestamp, timestamp_reply, all.take(i as int)) == (
                    self@.crypto,
                    Ok::<Seq<Seq<u8>>, CryptoError>(payload_views(result@)),
                ),
                self@.crypto.key == crypto0.key,
                result.len() == i,
                forall|j: int|
                    0 <= j < i ==> carries(
                        crypto0.key,
                        #[trigger] payload_views(result@)[j],
                        all[j],
                    ),
            decreases fragments.len() - i,
        {
            let frag_bytes = fragments[i].to_bytes();
            let ghost sealed_before = payload_views(result@);
            proof {
                assert(all[i as int] == fragments[i as int]@);
                lemma_sealed_run_step(crypto0, timestamp, timestamp_reply, all, i as int);
            }
            match self.crypto.encrypt_packet(
                Direction::ToServer,
                timestamp,
                timestamp_reply,
                frag_bytes.as_slice(),
            ) {
                Ok(packet) => {
                    result.push(packet);
                    assert(payload_views(result@) =~= sealed_before.push(packet@));
                },
                Err(e) => {
                    proof {
                        lemma_sealed_run_stuck(crypto0, timestamp, timestamp_reply, all, i + 1);
                    }
                    return Err(e);
                },
            }
            i = i + 1;
        }
        assert(all.take(i as int) =~= all);
        Ok(result)
    }

    /// Hands the stream's queue to the session, lets the session tick, and
    /// turns each message it wants sent into datagrams.
    fn flush_to_udp(&mut self, now_ms: u64) -> (r: Result<Vec<Vec<u8>>, CryptoError>)
        requires
            wf(old(self)@.ssp),
            old(self)@.fragmenter.mtu >= 64,
            old(self)@.ssp.outgoing.len() == 0,
            old(self)@.stream.send.len() > 0 ==> old(self)@.ssp.next_send_num < u64::MAX,
        ensures
            final(self)@ == flushed(old(self)@, now_ms),
            same_result(r, flush_output(old(self)@, now_ms)),
            client_wf(final(self)@),
            r matches Ok(packets) ==> all_carry(
                old(self)@.crypto.key,
                payload_views(packets@),
                fragments_of_all(old(self)@.fragmenter, tick_output(fed(old(self)@), now_ms)),
            ),
    {
        let pending = self.stream.take_pending_diff();
        if pending.len() > 0 {
            self.ssp.push_payload(pending);
            assert(self@.ssp.outgoing =~= old(self)@.stream.send);
            assert(self@.ssp == pushed(old(self)@.ssp, old(self)@.stream.send));
        }
        let ghost ssp_fed = self@.ssp;
        assert(ssp_fed == fed(old(self)@));
        assert(self@.stream.send =~= Seq::<u8>::empty());
        let instructions = self.ssp.tick(now_ms);
        let ghost messages = payload_views(instructions@);
        let ghost base = self@;
        let ghost ts = timestamp_at(now_ms);
        let ghost tsr = base.last_remote_timestamp;
        proof {
            assert(ticked(ssp_fed, now_ms).outgoing.len() == 0);
        }

        let mut result: Vec<Vec<u8>> = Vec::new();
        let mut i: usize = 0;
        proof {
            assert(messages.take(0) =~= Seq::<Seq<u8>>::empty());
            assert(payload_views(result@) =~= Seq::<Seq<u8>>::empty());
        }
        while i < instructions.len()
            invariant
                i <= instructions.len(),
                messages == payload_views(instructions@),
                messages == tick_output(fed(old(self)@), now_ms),
                base == (ClientView {
                    ssp: ticked(fed(old(self)@), now_ms),
                    stream: StreamView {
                        send: Seq::empty(),
                        total_sent: counted(
                            old(self)@.stream.total_sent,
                            old(self)@.stream.send.len(),
                        ),
                        ..old(self)@.stream
                    },
                    ..old(self)@
                }),
                wf(base.ssp),
                base.ssp.outgoing.len() == 0,
                base.fragmenter.mtu >= 64,
                self@.fragmenter.mtu == base.fragmenter.mtu,
                self@ == (ClientView {
                    crypto: self@.crypto,
                    fragmenter: self@.fragmenter,
                    ..base
                }),
                sent_all(base.crypto, base.fragmenter, ts, tsr, messages.take(i as int)) == (
                    self@.crypto,
                    self@.fragmenter,
                    Ok::<Seq<Seq<u8>>, CryptoError>(payload_views(result@)),
                ),
                ts == timestamp_at(now_ms),
                tsr == base.last_remote_timestamp,
                self@.crypto.key == base.crypto.key,
                all_carry(
                    base.crypto.key,
                    payload_views(result@),
                    fragments_of_all(base.fragmenter, messages.take(i as int)),
                ),
            decreases instructions.len() - i,
        {
            let ghost sent_before = payload_views(result@);
            proof {
                assert(messages[i as int] == instructions[i as int]@);
                lemma_sent_all_step(base.crypto, base.fragmenter, ts, tsr, messages, i as int);
                lemma_sent_all_fragmenter(
                    base.crypto,
                    base.fragmenter,
                    ts,
                    tsr,
                    messages.take(i as int),
                );
            }
            match self.encrypt_and_fragment(instructions[i].as_slice(), now_ms) {
                Ok(packets) => {
                    let mut packets = packets;
                    let ghost more = payload_views(packets@);
                    result.append(&mut packets);
                    assert(payload_views(result@) =~= sent_before + more);
                    proof {
                        lemma_all_carry_more(
                            base.crypto.key,
                            base.fragmenter,
                            messages,
                            i as int,
                            sent_before,
                            more,
                        );
                    }
                },
                Err(e) => {
                    proof {
                        lemma_sent_all_stuck(
                            base.crypto,
                            base.fragmenter,
                            ts,
                            tsr,
                            messages,
                            i + 1,
                        );
                    }
                    return Err(e);
                },
            }
            i = i + 1;
        }
        assert(messages.take(i as int) =~= messages);
        Ok(result)
    }

    /// Sends bytes of the host: gives the datagrams to hand to the socket
    /// now. The bytes go out as one message, which needs a number below
    /// `u64::MAX`.
    pub fn send_data(&mut self, data: &[u8], now_ms: u64) -> (r: Result<Vec<Vec<u8>>, CryptoError>)
        requires
            client_wf(old(self)@),
            data.len() > 0 ==> old(self)@.ssp.next_send_num < u64::MAX,
        ensures
            final(self)@ == flushed(written(old(self)@, data@), now_ms),
            same_result(r, flush_output(written(old(self)@, data@), now_ms)),
            client_wf(final(self)@),
            r matches Ok(packets) ==> all_carry(
                old(self)@.crypto.key,
                payload_views(packets@),
                fragments_of_all(
                    old(self)@.fragmenter,
                    tick_output(fed(written(old(self)@, data@)), now_ms),
                ),
            ),
    {
        self.stream.write(data);
        assert(self@.stream.send =~= data@);
        assert(self@ == written(old(self)@, data@));
        self.flush_to_udp(now_ms)
    }

    /// One step of the clock: gives the datagrams of the messages that are
    /// due again, or of a heartbeat where the line was silent for
    /// 3000 ms.
    pub fn tick(&mut self, now_ms: u64) -> (r: Result<Vec<Vec<u8>>, CryptoError>)
        requires
            client_wf(old(self)@),
        ensures
            final(self)@ == flushed(old(self)@, now_ms),
            same_result(r, flush_output(old(self)@, now_ms)),
            client_wf(final(self)@),
            r matches Ok(packets) ==> all_carry(
                old(self)@.crypto.key,
                payload_views(packets@),
                fragments_of_all(old(self)@.fragmenter, tick_output(fed(old(self)@), now_ms)),
            ),
    {
        self.flush_to_udp(now_ms)
    }
}

} // verus!
