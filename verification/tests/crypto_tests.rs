use aead::{Aead, KeyInit};
use mosh_core::crypto::key::key_from_bytes;
use mosh_core::{decode_base64_key, CryptoError, CryptoSession, Direction, MoshNonce};

fn make_session() -> CryptoSession {
    let key = [0u8; 16];
    CryptoSession::from_key(key).unwrap()
}

#[test]
fn test_direction_to_server() {
    let dir = Direction::from_seq(0x0000000000000001u64);
    assert_eq!(dir, Direction::ToServer);
}

#[test]
fn test_direction_to_client() {
    let dir = Direction::from_seq(0x8000000000000001u64);
    assert_eq!(dir, Direction::ToClient);
}

#[test]
fn test_direction_apply_to_seq() {
    let seq: u64 = 42;
    let ts = Direction::ToServer.apply_to_seq(seq);
    assert_eq!(ts >> 63, 0);
    let tc = Direction::ToClient.apply_to_seq(seq);
    assert_eq!(tc >> 63, 1);
}

#[test]
fn test_decode_base64_key_valid() {
    let key_b64 = "AAAAAAAAAAAAAAAAAAAAAA";
    let key = decode_base64_key(key_b64).unwrap();
    assert_eq!(key, [0u8; 16]);
}

#[test]
fn test_decode_base64_key_invalid_length() {
    let key_b64 = "AAAAAAAAAAAAAA";
    let result = decode_base64_key(key_b64);
    assert!(result.is_err());
}

#[test]
fn test_nonce_from_seq() {
    let nonce = MoshNonce::new(1u64);
    assert_eq!(&nonce.as_bytes()[0..4], &[0u8; 4]);
    assert_eq!(nonce.seq(), 1u64);
}

#[test]
fn test_nonce_roundtrip() {
    let seq: u64 = 0xDEADBEEFCAFEBABE;
    let nonce = MoshNonce::new(seq);
    assert_eq!(nonce.seq(), seq);
}

#[test]
fn test_nonce_from_udp_payload() {
    let seq: u64 = 42;
    let original = MoshNonce::new(seq);

    let tail: [u8; 8] = original.tail_bytes().try_into().unwrap();
    let restored = MoshNonce::from_nonce_tail(&tail);

    assert_eq!(original, restored);
    assert_eq!(restored.seq(), seq);
}

#[test]
fn test_nonce_zero_padding() {
    let nonce = MoshNonce::new(0xFFFFFFFFFFFFFFFF);
    assert_eq!(&nonce.as_bytes()[0..4], &[0u8; 4]);
    assert_eq!(&nonce.as_bytes()[4..12], &[0xFF; 8]);
}

#[test]
fn test_encrypt_decrypt_roundtrip() {
    let mut session = make_session();
    let payload = b"Hello, mosh!";

    let packet = session
        .encrypt_packet(Direction::ToServer, 1000, 0, payload)
        .unwrap();

    let mut recv_session = make_session();
    let decrypted = recv_session.decrypt_packet(&packet).unwrap();

    assert_eq!(decrypted.payload, payload);
    assert_eq!(decrypted.direction, Direction::ToServer);
    assert_eq!(decrypted.timestamp, 1000);
    assert_eq!(decrypted.timestamp_reply, 0);
}

#[test]
fn test_seq_increments() {
    let mut session = make_session();
    assert_eq!(session.send_seq(), 0);

    session
        .encrypt_packet(Direction::ToServer, 0, 0, b"")
        .unwrap();
    assert_eq!(session.send_seq(), 1);

    session
        .encrypt_packet(Direction::ToServer, 0, 0, b"")
        .unwrap();
    assert_eq!(session.send_seq(), 2);
}

#[test]
fn test_decrypt_wrong_key_fails() {
    let mut send_session = make_session();
    let packet = send_session
        .encrypt_packet(Direction::ToServer, 0, 0, b"secret")
        .unwrap();

    let key = [0xFFu8; 16];
    let mut recv_session = CryptoSession::from_key(key).unwrap();
    let result = recv_session.decrypt_packet(&packet);
    assert!(result.is_err());
}

#[test]
fn test_decrypt_too_short_fails() {
    let mut session = make_session();
    let result = session.decrypt_packet(&[0u8; 10]);
    assert_eq!(result, Err(CryptoError::PacketTooShort));
}

#[test]
fn test_from_base64_key() {
    let session = CryptoSession::from_base64_key("AAAAAAAAAAAAAAAAAAAAAA");
    assert!(session.is_ok());
}

// ---- further cases ----

#[test]
fn direction_tag_keeps_low_63_bits() {
    assert_eq!(Direction::ToServer.apply_to_seq(0x8000_0000_0000_0005), 5);
    assert_eq!(Direction::ToClient.apply_to_seq(5), 0x8000_0000_0000_0005);
    assert_eq!(Direction::from_seq(Direction::ToClient.apply_to_seq(7)), Direction::ToClient);
    assert_eq!(Direction::from_seq(Direction::ToServer.apply_to_seq(7)), Direction::ToServer);
    assert_eq!(mosh_core::crypto::direction::strip_direction(0x8000_0000_0000_002A), 42);
}

#[test]
fn nonce_bytes_are_big_endian() {
    let nonce = MoshNonce::new(0x0102_0304_0506_0708);
    assert_eq!(nonce.as_bytes(), &[0, 0, 0, 0, 1, 2, 3, 4, 5, 6, 7, 8]);
    assert_eq!(nonce.tail_bytes(), &[1, 2, 3, 4, 5, 6, 7, 8]);
}

#[test]
fn nonce_from_prefix_needs_eight_bytes() {
    assert!(MoshNonce::from_udp_payload_prefix(&[0u8; 7]).is_none());
    let n = MoshNonce::from_udp_payload_prefix(&[9, 8, 7, 6, 5, 4, 3, 2, 1]).unwrap();
    assert_eq!(n.as_bytes(), &[0, 0, 0, 0, 9, 8, 7, 6, 5, 4, 3, 2]);
    assert_eq!(n.seq(), 0x0908_0706_0504_0302);
}

#[test]
fn base64_key_decodes_url_safe_alphabet() {
    // 0xFB 0xFF ... uses '-' and '_' of the URL-safe alphabet.
    let key = decode_base64_key("-_8AAAAAAAAAAAAAAAAAAA").unwrap();
    let mut expected = [0u8; 16];
    expected[0] = 0xFB;
    expected[1] = 0xFF;
    assert_eq!(key, expected);
    let key2 = decode_base64_key("3q2-796tvu_erb7v3q2-7w").unwrap();
    assert_eq!(
        key2,
        [0xDE, 0xAD, 0xBE, 0xEF, 0xDE, 0xAD, 0xBE, 0xEF, 0xDE, 0xAD, 0xBE, 0xEF, 0xDE, 0xAD, 0xBE, 0xEF]
    );
}

#[test]
fn base64_key_errors() {
    assert_eq!(decode_base64_key("not base64 at all!!"), Err(CryptoError::InvalidBase64));
    assert_eq!(decode_base64_key("+/8AAAAAAAAAAAAAAAAAAA"), Err(CryptoError::InvalidBase64));
    assert_eq!(decode_base64_key("AAAAAAAAAAAAAAAAAAAAAA=="), Err(CryptoError::InvalidBase64));
    assert_eq!(decode_base64_key("AAAAAAAAAAAAAA"), Err(CryptoError::InvalidKeyLength));
    assert_eq!(decode_base64_key(""), Err(CryptoError::InvalidKeyLength));
    assert!(matches!(
        CryptoSession::from_base64_key("AAAA"),
        Err(CryptoError::InvalidKeyLength)
    ));
    assert!(matches!(
        CryptoSession::from_base64_key("****"),
        Err(CryptoError::InvalidBase64)
    ));
}

#[test]
fn key_from_bytes_takes_sixteen() {
    assert_eq!(key_from_bytes(&[7u8; 16]), Ok([7u8; 16]));
    assert_eq!(key_from_bytes(&[7u8; 15]), Err(CryptoError::InvalidKeyLength));
    assert_eq!(key_from_bytes(&[7u8; 17]), Err(CryptoError::InvalidKeyLength));
}

#[test]
fn packet_is_nonce_tail_then_ocb3_of_header_and_payload() {
    let key = [0x2Bu8; 16];
    let mut session = CryptoSession::from_key(key).unwrap();
    // Advance the counter so that the sequence number is not zero.
    session.encrypt_packet(Direction::ToClient, 0, 0, b"x").unwrap();
    let packet = session
        .encrypt_packet(Direction::ToClient, 0x1234, 0xABCD, b"payload")
        .unwrap();

    let direction_seq: u64 = 0x8000_0000_0000_0001;
    assert_eq!(&packet[0..8], &direction_seq.to_be_bytes());
    assert_eq!(packet.len(), 8 + 12 + 7 + 16);

    let mut plaintext = Vec::new();
    plaintext.extend_from_slice(&direction_seq.to_be_bytes());
    plaintext.extend_from_slice(&[0x12, 0x34, 0xAB, 0xCD]);
    plaintext.extend_from_slice(b"payload");
    let mut nonce = [0u8; 12];
    nonce[4..12].copy_from_slice(&direction_seq.to_be_bytes());
    let cipher = ocb3::Ocb3::<aes::Aes128>::new((&key).into());
    let expected = cipher.encrypt((&nonce).into(), plaintext.as_slice()).unwrap();
    assert_eq!(&packet[8..], expected.as_slice());
    assert_ne!(&packet[8..8 + plaintext.len()], plaintext.as_slice());
}

#[test]
fn decrypt_gives_counter_direction_and_payload() {
    let key = [0x2Bu8; 16];
    let mut a = CryptoSession::from_key(key).unwrap();
    let mut b = CryptoSession::from_key(key).unwrap();
    a.encrypt_packet(Direction::ToServer, 1, 2, b"first").unwrap();
    let packet = a.encrypt_packet(Direction::ToClient, 3, 4, b"second").unwrap();
    let p = b.decrypt_packet(&packet).unwrap();
    assert_eq!(p.seq, 1);
    assert_eq!(p.direction, Direction::ToClient);
    assert_eq!(p.timestamp, 3);
    assert_eq!(p.timestamp_reply, 4);
    assert_eq!(p.payload, b"second");
    assert_eq!(b.recv_seq(), 1);
    assert_eq!(b.send_seq(), 0);
}

#[test]
fn decrypt_errors_leave_the_session() {
    let key = [1u8; 16];
    let mut a = CryptoSession::from_key(key).unwrap();
    let mut b = CryptoSession::from_key(key).unwrap();
    a.encrypt_packet(Direction::ToServer, 0, 0, b"").unwrap();
    a.encrypt_packet(Direction::ToServer, 0, 0, b"").unwrap();
    let good = a.encrypt_packet(Direction::ToServer, 0, 0, b"abc").unwrap();
    b.decrypt_packet(&good).unwrap();
    assert_eq!(b.recv_seq(), 2);

    assert_eq!(b.decrypt_packet(&[0u8; 23]), Err(CryptoError::PacketTooShort));
    assert_eq!(b.decrypt_packet(&[0u8; 24]), Err(CryptoError::DecryptionFailed));
    assert_eq!(b.decrypt_packet(&[0u8; 100]), Err(CryptoError::DecryptionFailed));
    assert_eq!(b.recv_seq(), 2);
}

#[test]
fn decrypt_refuses_plaintext_without_header() {
    let key = [5u8; 16];
    // A datagram that authenticates but whose plaintext has 11 bytes.
    let nonce = [0u8, 0, 0, 0, 0, 0, 0, 0, 0, 0, 0, 9];
    let cipher = ocb3::Ocb3::<aes::Aes128>::new((&key).into());
    let sealed = cipher.encrypt((&nonce).into(), &[0u8; 11][..]).unwrap();
    let mut packet = nonce[4..12].to_vec();
    packet.extend_from_slice(&sealed);
    let mut session = CryptoSession::from_key(key).unwrap();
    assert_eq!(session.decrypt_packet(&packet), Err(CryptoError::DecryptionFailed));

    // With 12 bytes it opens, to an empty payload.
    let sealed = cipher.encrypt((&nonce).into(), &[0u8; 12][..]).unwrap();
    let mut packet = nonce[4..12].to_vec();
    packet.extend_from_slice(&sealed);
    let p = session.decrypt_packet(&packet).unwrap();
    assert_eq!(p.payload, Vec::<u8>::new());
    assert_eq!(p.seq, 0);
}

#[test]
fn every_bit_flip_fails_to_decrypt() {
    let key = [0x42u8; 16];
    let mut sender = CryptoSession::from_key(key).unwrap();
    let packet = sender
        .encrypt_packet(Direction::ToServer, 7, 8, b"authentic data")
        .unwrap();
    for i in 0..packet.len() {
        for bit in 0..8 {
            let mut tampered = packet.clone();
            tampered[i] ^= 1 << bit;
            let mut receiver = CryptoSession::from_key(key).unwrap();
            assert_eq!(
                receiver.decrypt_packet(&tampered),
                Err(CryptoError::DecryptionFailed)
            );
            assert_eq!(receiver.recv_seq(), 0);
        }
    }
}

#[test]
fn error_messages() {
    assert_eq!(CryptoError::InvalidKeyLength.message(), "Invalid key length (expected 16 bytes)");
    assert_eq!(CryptoError::InvalidBase64.message(), "Invalid Base64 encoding");
    assert_eq!(CryptoError::EncryptionFailed.message(), "Encryption failed");
    assert_eq!(
        CryptoError::DecryptionFailed.message(),
        "Decryption failed (authentication tag mismatch)"
    );
    assert_eq!(
        CryptoError::ReplayAttack.message(),
        "Replay attack detected: packet sequence number too old"
    );
    assert_eq!(CryptoError::PacketTooShort.message(), "Packet too short");
}
