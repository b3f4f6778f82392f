//! Sealing and opening of datagrams.
//!
//! A datagram is the last eight bytes of the nonce, then the ciphertext and
//! tag of a plaintext that starts with a 12-byte header: the tagged sequence
//! number and two 16-bit timestamps, all big-endian.

use vstd::prelude::*;
use crate::crypto::cipher::{
    cipher_limit,
    message_len_bound,
    ocb3_open,
    ocb3_seal,
    open,
    seal,
};
use crate::crypto::direction::{counter_of, lemma_tag_roundtrip, strip_direction, Direction};
use crate::crypto::error::CryptoError;
use crate::crypto::key::{decode_base64_key, key_of_text};
use crate::crypto::nonce::{nonce_of_seq, nonce_of_tail, MoshNonce};
use crate::wire::{
    be16,
    be64,
    from_be16,
    from_be64,
    get_be16,
    get_be64,
    lemma_be16_roundtrip,
    lemma_be64_roundtrip,
    put_be16,
    put_be64,
};

verus! {

/// The length of the plaintext header.
pub const HEADER_LEN: usize = 12;

/// The shortest datagram: a nonce tail and the tag of an empty plaintext.
pub const MIN_PACKET_LEN: usize = 24;

/// What a datagram holds once it is opened.
#[derive(Debug, Clone, PartialEq)]
pub struct DecryptedPacket {
    /// The sender's counter, without the direction bit.
    pub seq: u64,
    /// The direction bit.
    pub direction: Direction,
    /// The low 16 bits of the sender's clock, in milliseconds.
    pub timestamp: u16,
    /// The timestamp that the sender last received, echoed.
    pub timestamp_reply: u16,
    /// The bytes of one fragment.
    pub payload: Vec<u8>,
}

/// The mathematical content of a `DecryptedPacket`.
pub struct PacketView {
    pub seq: u64,
    pub direction: Direction,
    pub timestamp: u16,
    pub timestamp_reply: u16,
    pub payload: Seq<u8>,
}

impl View for DecryptedPacket {
    type V = PacketView;

    open spec fn view(&self) -> PacketView {
        PacketView {
            seq: self.seq,
            direction: self.direction,
            timestamp: self.timestamp,
            timestamp_reply: self.timestamp_reply,
            payload: self.payload@,
        }
    }
}

/// The plaintext of a datagram: header, then payload.
pub open spec fn plaintext_of(
    direction_seq: u64,
    timestamp: u16,
    timestamp_reply: u16,
    payload: Seq<u8>,
) -> Seq<u8> {
    be64(direction_seq) + be16(timestamp) + be16(timestamp_reply) + payload
}

/// What a plaintext of at least 12 bytes says.
pub open spec fn parse_plaintext(plaintext: Seq<u8>) -> PacketView
    recommends
        plaintext.len() >= 12,
{
    let direction_seq = from_be64(plaintext.subrange(0, 8));
    PacketView {
        seq: counter_of(direction_seq),
        direction: Direction::of(direction_seq),
        timestamp: from_be16(plaintext.subrange(8, 10)),
        timestamp_reply: from_be16(plaintext.subrange(10, 12)),
        payload: plaintext.subrange(12, plaintext.len() as int),
    }
}

/// The exact bytes of the datagram for a tagged sequence number.
pub open spec fn sealed_packet(
    key: Seq<u8>,
    direction_seq: u64,
    timestamp: u16,
    timestamp_reply: u16,
    payload: Seq<u8>,
) -> Seq<u8> {
    be64(direction_seq) + ocb3_seal(
        key,
        nonce_of_seq(direction_seq),
        plaintext_of(direction_seq, timestamp, timestamp_reply, payload),
    )
}

/// `packet` is the datagram that a session with `key` makes of these
/// values when its counter stands at `seq`: the exact bytes, which the
/// cipher opens again under the same key and nonce.
pub open spec fn is_packet_of(
    key: Seq<u8>,
    direction: Direction,
    seq: u64,
    timestamp: u16,
    timestamp_reply: u16,
    payload: Seq<u8>,
    packet: Seq<u8>,
) -> bool {
    let direction_seq = direction.tag(seq);
    let plaintext = plaintext_of(direction_seq, timestamp, timestamp_reply, payload);
    &&& packet == sealed_packet(key, direction_seq, timestamp, timestamp_reply, payload)
    &&& packet.len() == 8 + plaintext.len() + 16
    &&& ocb3_open(key, nonce_of_seq(direction_seq), packet.subrange(8, packet.len() as int))
        == Some(plaintext)
}

/// What opening a datagram under `key` gives.
pub open spec fn opened(key: Seq<u8>, packet: Seq<u8>) -> Result<PacketView, CryptoError> {
    if packet.len() < 24 {
        Err(CryptoError::PacketTooShort)
    } else if packet.len() - 24 >= message_len_bound() {
        Err(CryptoError::DecryptionFailed)
    } else {
        match ocb3_open(key, nonce_of_tail(packet), packet.subrange(8, packet.len() as int)) {
            None => Err(CryptoError::DecryptionFailed),
            Some(plaintext) => if plaintext.len() < 12 {
                Err(CryptoError::DecryptionFailed)
            } else {
                Ok(parse_plaintext(plaintext))
            },
        }
    }
}

/// Whether the cipher refuses what follows the nonce tail of a datagram,
/// under the nonce that the tail gives.
pub open spec fn cipher_refuses(key: Seq<u8>, packet: Seq<u8>) -> bool {
    ocb3_open(key, nonce_of_tail(packet), packet.subrange(8, packet.len() as int)) is None
}

/// A datagram of 24 bytes or more that the cipher refuses fails to open
/// with `DecryptionFailed`. Whether the cipher refuses an altered datagram
/// is the cipher's matter.
pub proof fn lemma_refused_datagram_fails(key: Seq<u8>, packet: Seq<u8>)
    requires
        packet.len() >= 24,
        cipher_refuses(key, packet),
    ensures
        opened(key, packet) == Err::<PacketView, CryptoError>(CryptoError::DecryptionFailed),
{
}

/// The header and payload of a plaintext are read back as they were written.
pub proof fn lemma_parse_plaintext(
    direction: Direction,
    seq: u64,
    timestamp: u16,
    timestamp_reply: u16,
    payload: Seq<u8>,
)
    ensures
        parse_plaintext(plaintext_of(direction.tag(seq), timestamp, timestamp_reply, payload))
            == (PacketView {
            seq: counter_of(seq),
            direction,
            timestamp,
            timestamp_reply,
            payload,
        }),
{
    let direction_seq = direction.tag(seq);
    let plaintext = plaintext_of(direction_seq, timestamp, timestamp_reply, payload);
    lemma_be64_roundtrip(direction_seq);
    lemma_be16_roundtrip(timestamp);
    lemma_be16_roundtrip(timestamp_reply);
    lemma_tag_roundtrip(direction, seq);
    assert(plaintext.subrange(0, 8) =~= be64(direction_seq));
    assert(plaintext.subrange(8, 10) =~= be16(timestamp));
    assert(plaintext.subrange(10, 12) =~= be16(timestamp_reply));
    assert(plaintext.subrange(12, plaintext.len() as int) =~= payload);
}

/// Opening inverts sealing: a datagram made of a direction, two timestamps
/// and a payload opens under the same key to exactly these, with the low 63
/// bits of the counter it was made at.
pub proof fn lemma_open_inverts_seal(
    key: Seq<u8>,
    direction: Direction,
    seq: u64,
    timestamp: u16,
    timestamp_reply: u16,
    payload: Seq<u8>,
    packet: Seq<u8>,
)
    requires
        is_packet_of(key, direction, seq, timestamp, timestamp_reply, payload, packet),
        payload.len() + 12 < message_len_bound(),
    ensures
        opened(key, packet) == Ok::<PacketView, CryptoError>(
            PacketView { seq: counter_of(seq), direction, timestamp, timestamp_reply, payload },
        ),
{
    let direction_seq = direction.tag(seq);
    lemma_parse_plaintext(direction, seq, timestamp, timestamp_reply, payload);
    assert(packet.subrange(0, 8) =~= be64(direction_seq));
    assert(nonce_of_tail(packet) =~= nonce_of_seq(direction_seq));
}

/// A packet session: the key, the counter of the next datagram to send, and
/// the counter of the last datagram opened.
pub struct CryptoSession {
    key: [u8; 16],
    send_seq: u64,
    recv_seq: u64,
}

/// The mathematical content of a `CryptoSession`.
pub struct CryptoView {
    pub key: Seq<u8>,
    pub send_seq: u64,
    pub recv_seq: u64,
}

impl View for CryptoSession {
    type V = CryptoView;

    closed spec fn view(&self) -> CryptoView {
        CryptoView { key: self.key@, send_seq: self.send_seq, recv_seq: self.recv_seq }
    }
}

impl CryptoSession {
    /// A fresh session on a key given as base64 text.
    pub fn from_base64_key(key_b64: &str) -> (r: Result<CryptoSession, CryptoError>)
        ensures
            match r {
                Ok(s) => key_of_text(key_b64@) == Ok::<Seq<u8>, CryptoError>(s@.key)
                    && s@.send_seq == 0 && s@.recv_seq == 0,
                Err(e) => key_of_text(key_b64@) == Err::<Seq<u8>, CryptoError>(e),
            },
    {
        match decode_base64_key(key_b64) {
            Ok(key) => CryptoSession::from_key(key),
            Err(e) => Err(e),
        }
    }

    /// A fresh session on a raw key. It never fails.
    pub fn from_key(key: [u8; 16]) -> (r: Result<CryptoSession, CryptoError>)
        ensures
            r matches Ok(s) && s@ == (CryptoView { key: key@, send_seq: 0, recv_seq: 0 }),
    {
        Ok(CryptoSession { key, send_seq: 0, recv_seq: 0 })
    }

    /// Seals one datagram and advances the counter.
    ///
    /// The counter is taken modulo 2^64; its low 63 bits go into the nonce
    /// under the direction bit. A payload that with its header reaches the
    /// bound of the cipher is refused and leaves the session as it was.
    pub fn encrypt_packet(
        &mut self,
        direction: Direction,
        timestamp: u16,
        timestamp_reply: u16,
        payload: &[u8],
    ) -> (r: Result<Vec<u8>, CryptoError>)
        ensures
            payload.len() + 12 >= message_len_bound() ==> r == Err::<Vec<u8>, CryptoError>(
                CryptoError::EncryptionFailed,
            ) && final(self)@ == old(self)@,
            payload.len() + 12 < message_len_bound() ==> r is Ok,
            r matches Ok(packet) ==> {
                &&& is_packet_of(
                    old(self)@.key,
                    direction,
                    old(self)@.send_seq,
                    timestamp,
                    timestamp_reply,
                    payload@,
                    packet@,
                )
                &&& packet.len() == payload.len() + 36
                &&& opened(old(self)@.key, packet@) == Ok::<PacketView, CryptoError>(
                    PacketView {
                        seq: counter_of(old(self)@.send_seq),
                        direction,
                        timestamp,
                        timestamp_reply,
                        payload: payload@,
                    },
                )
                &&& final(self)@ == (CryptoView {
                    send_seq: if old(self)@.send_seq == u64::MAX {
                        0
                    } else {
                        (old(self)@.send_seq + 1) as u64
                    },
                    ..old(self)@
                })
            },
    {
        let limit = cipher_limit();
        if payload.len() >= limit - HEADER_LEN {
            return Err(CryptoError::EncryptionFailed);
        }
        let seq = self.send_seq;
        let direction_seq = direction.apply_to_seq(seq);
        let nonce = MoshNonce::new(direction_seq);

        let mut plaintext: Vec<u8> = Vec::with_capacity(HEADER_LEN + payload.len());
        put_be64(&mut plaintext, direction_seq);
        put_be16(&mut plaintext, timestamp);
        put_be16(&mut plaintext, timestamp_reply);
        plaintext.extend_from_slice(payload);
        assert(plaintext@ =~= plaintext_of(direction_seq, timestamp, timestamp_reply, payload@));

        match seal(&self.key, nonce.as_bytes(), plaintext.as_slice()) {
            Ok(ciphertext) => {
                let mut packet: Vec<u8> = Vec::with_capacity(8 + ciphertext.len());
                packet.extend_from_slice(nonce.tail_bytes());
                packet.extend_from_slice(ciphertext.as_slice());
                proof {
                    assert(nonce@.subrange(4, 12) =~= be64(direction_seq));
                    assert(packet@ =~= be64(direction_seq) + ciphertext@);
                    assert(packet@.subrange(8, packet@.len() as int) =~= ciphertext@);
                    lemma_open_inverts_seal(
                        self@.key,
                        direction,
                        seq,
                        timestamp,
                        timestamp_reply,
                        payload@,
                        packet@,
                    );
                }
                self.send_seq = seq.wrapping_add(1);
                Ok(packet)
            },
            Err(_) => Err(CryptoError::EncryptionFailed),
        }
    }

    /// Opens one datagram and records its counter.
    ///
    /// No window is kept: the counter of every datagram that opens is taken
    /// as it comes. A datagram that does not open leaves the session as it
    /// was.
    pub fn decrypt_packet(&mut self, packet: &[u8]) -> (r: Result<DecryptedPacket, CryptoError>)
        ensures
            match r {
                Ok(p) => opened(old(self)@.key, packet@) == Ok::<PacketView, CryptoError>(p@)
                    && final(self)@ == (CryptoView { recv_seq: p.seq, ..old(self)@ }),
                Err(e) => opened(old(self)@.key, packet@) == Err::<PacketView, CryptoError>(e)
                    && final(self)@ == old(self)@,
            },
    {
        if packet.len() < MIN_PACKET_LEN {
            return Err(CryptoError::PacketTooShort);
        }
        let limit = cipher_limit();
        if packet.len() - MIN_PACKET_LEN >= limit {
            return Err(CryptoError::DecryptionFailed);
        }
        let nonce = match MoshNonce::from_udp_payload_prefix(packet) {
            Some(n) => n,
            None => { return Err(CryptoError::PacketTooShort); },
        };
        let ciphertext = &packet[8..packet.len()];

        let plaintext = match open(&self.key, nonce.as_bytes(), ciphertext) {
            Ok(p) => p,
            Err(_) => { return Err(CryptoError::DecryptionFailed); },
        };
        if plaintext.len() < HEADER_LEN {
            return Err(CryptoError::DecryptionFailed);
        }
        let direction_seq = get_be64(plaintext.as_slice(), 0);
        let direction = Direction::from_seq(direction_seq);
        let seq = strip_direction(direction_seq);
        let timestamp = get_be16(plaintext.as_slice(), 8);
        let timestamp_reply = get_be16(plaintext.as_slice(), 10);
        let payload = vstd::slice::slice_to_vec(
            vstd::slice::slice_subrange(plaintext.as_slice(), HEADER_LEN, plaintext.len()),
        );

        self.recv_seq = seq;

        Ok(DecryptedPacket { seq, direction, timestamp, timestamp_reply, payload })
    }

    /// The counter that the next datagram will be sealed at.
    pub fn send_seq(&self) -> (s: u64)
        ensures
            s == self@.send_seq,
    {
        self.send_seq
    }

    /// The counter of the last datagram that opened.
    pub fn recv_seq(&self) -> (s: u64)
        ensures
            s == self@.recv_seq,
    {
        self.recv_seq
    }
}

} // verus!
