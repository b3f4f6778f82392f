use mosh_core::{
    CryptoSession, Direction, Fragment, FragmentAssembly, Fragmenter, Instruction, SspSession,
    StreamChannel, Timestamp16,
};

struct Sender {
    crypto: CryptoSession,
    fragmenter: Fragmenter,
    ssp: SspSession,
    stream: StreamChannel,
    last_remote_ts: u16,
}

struct Receiver {
    crypto: CryptoSession,
    assembly: FragmentAssembly,
    ssp: SspSession,
    stream: StreamChannel,
}

impl Sender {
    fn new(key: [u8; 16], mtu: usize) -> Self {
        Sender {
            crypto: CryptoSession::from_key(key).unwrap(),
            fragmenter: Fragmenter::new(mtu.saturating_sub(46).max(64)),
            ssp: SspSession::new(),
            stream: StreamChannel::new(),
            last_remote_ts: Timestamp16::init().raw(),
        }
    }

    fn send(&mut self, data: &[u8], now_ms: u64) -> Vec<Vec<u8>> {
        self.stream.write(data);
        let pending = self.stream.take_pending_diff();
        if !pending.is_empty() {
            self.ssp.push_payload(pending);
        }

        let instructions = self.ssp.tick(now_ms);
        let mut udp_packets = Vec::new();

        for instr_bytes in instructions {
            let frags = self.fragmenter.make_fragments(&instr_bytes);
            let ts = Timestamp16::now_from_ms(now_ms).raw();
            let ts_reply = self.last_remote_ts;

            for frag in frags {
                let frag_bytes = frag.to_bytes();
                let udp_payload = self
                    .crypto
                    .encrypt_packet(Direction::ToServer, ts, ts_reply, &frag_bytes)
                    .unwrap();
                udp_packets.push(udp_payload);
            }
        }

        udp_packets
    }

    fn heartbeat(&mut self, now_ms: u64) -> Vec<Vec<u8>> {
        let instructions = self.ssp.tick(now_ms);
        let mut udp_packets = Vec::new();

        for instr_bytes in instructions {
            let frags = self.fragmenter.make_fragments(&instr_bytes);
            let ts = Timestamp16::now_from_ms(now_ms).raw();
            let ts_reply = self.last_remote_ts;

            for frag in frags {
                let frag_bytes = frag.to_bytes();
                let udp_payload = self
                    .crypto
                    .encrypt_packet(Direction::ToServer, ts, ts_reply, &frag_bytes)
                    .unwrap();
                udp_packets.push(udp_payload);
            }
        }

        udp_packets
    }
}

impl Receiver {
    fn new(key: [u8; 16]) -> Self {
        Receiver {
            crypto: CryptoSession::from_key(key).unwrap(),
            assembly: FragmentAssembly::new(),
            ssp: SspSession::new(),
            stream: StreamChannel::new(),
        }
    }

    fn recv(&mut self, udp_payload: &[u8], now_ms: u64) -> Option<Vec<u8>> {
        let decrypted = self.crypto.decrypt_packet(udp_payload).ok()?;
        let frag = Fragment::from_bytes(&decrypted.payload).ok()?;
        let instruction_bytes = self.assembly.add_fragment(frag)?;
        let instr = Instruction::decode_from_bytes(&instruction_bytes).ok()?;
        let payload = self.ssp.recv_instruction(&instr, now_ms)?;
        self.stream.apply_diff(&payload);
        Some(self.stream.read_available())
    }
}

#[test]
fn test_crypto_roundtrip_full() {
    let key = [0xABu8; 16];
    let mut sender = CryptoSession::from_key(key).unwrap();
    let mut receiver = CryptoSession::from_key(key).unwrap();

    let payloads = [
        b"".as_slice(),
        b"Hello, mosh!".as_slice(),
        &[0u8; 500],
        &[0xFFu8; 1400],
    ];

    for (i, payload) in payloads.iter().enumerate() {
        let packet = sender
            .encrypt_packet(Direction::ToServer, i as u16, 0, payload)
            .expect("暗号化に失敗");

        let decrypted = receiver.decrypt_packet(&packet).expect("復号に失敗");

        assert_eq!(decrypted.payload, *payload, "ペイロード {} の往復が一致しない", i);
        assert_eq!(decrypted.direction, Direction::ToServer, "方向が一致しない");
        assert_eq!(decrypted.timestamp, i as u16, "タイムスタンプが一致しない");
    }
}

#[test]
fn test_crypto_direction_bits() {
    let key = [0u8; 16];
    let mut sender = CryptoSession::from_key(key).unwrap();
    let mut receiver = CryptoSession::from_key(key).unwrap();

    let pkt_to_server = sender
        .encrypt_packet(Direction::ToServer, 100, 200, b"from client")
        .unwrap();
    let dec = receiver.decrypt_packet(&pkt_to_server).unwrap();
    assert_eq!(dec.direction, Direction::ToServer);
    assert_eq!(dec.timestamp, 100);
    assert_eq!(dec.timestamp_reply, 200);
    assert_eq!(dec.payload, b"from client");

    let pkt_to_client = sender
        .encrypt_packet(Direction::ToClient, 300, 100, b"from server")
        .unwrap();
    let dec2 = receiver.decrypt_packet(&pkt_to_client).unwrap();
    assert_eq!(dec2.direction, Direction::ToClient);
    assert_eq!(dec2.timestamp, 300);
    assert_eq!(dec2.payload, b"from server");
}

#[test]
fn test_crypto_tampered_packet_fails() {
    let key = [0x42u8; 16];
    let mut sender = CryptoSession::from_key(key).unwrap();
    let mut receiver = CryptoSession::from_key(key).unwrap();

    let mut packet = sender
        .encrypt_packet(Direction::ToServer, 0, 0, b"authentic data")
        .unwrap();

    let len = packet.len();
    packet[len / 2] ^= 0xFF;

    let result = receiver.decrypt_packet(&packet);
    assert!(result.is_err(), "改ざんパケットは復号失敗すべき");
}

#[test]
fn test_full_pipeline_bidirectional() {
    let shared_key = [0xDEu8; 16];

    let mut client = Sender::new(shared_key, 500);
    let mut server = Receiver::new(shared_key);

    let now_ms: u64 = 100_000;

    let client_msg = b"Hello, Server!";
    let udp_packets = client.send(client_msg, now_ms);

    assert!(!udp_packets.is_empty(), "クライアントが UDP パケットを生成すべき");

    let mut server_received = None;
    for pkt in &udp_packets {
        server_received = server.recv(pkt, now_ms + 50);
    }

    assert_eq!(
        server_received,
        Some(client_msg.to_vec()),
        "サーバーがクライアントのデータを正確に受信すべき"
    );
}

#[test]
fn test_large_payload_encrypted_fragmented() {
    let key = [0x77u8; 16];
    let mtu = 200usize;

    let mut sender = Sender::new(key, mtu);
    let mut receiver = Receiver::new(key);

    let large_data: Vec<u8> = (0u8..=255).cycle().take(2000).collect();

    let udp_packets = sender.send(&large_data, 50_000);

    assert!(udp_packets.len() > 1, "大きなペイロードは複数フラグメントになるべき");

    let mut final_data = None;
    for pkt in &udp_packets {
        if let Some(data) = receiver.recv(pkt, 50_100) {
            final_data = Some(data);
        }
    }

    assert_eq!(
        final_data,
        Some(large_data),
        "大きなペイロードの完全ラウンドトリップ失敗"
    );
}

#[test]
fn test_ssp_multiple_messages() {
    let key = [0x11u8; 16];
    let mut sender = Sender::new(key, 500);
    let mut receiver = Receiver::new(key);

    let messages = [
        b"Message #1".as_slice(),
        b"Message #2 - slightly longer".as_slice(),
        b"Message #3 - even longer message for testing purposes".as_slice(),
    ];

    for (i, msg) in messages.iter().enumerate() {
        let now_ms = 1000u64 + i as u64 * 100;
        let udp_packets = sender.send(msg, now_ms);

        let mut received = None;
        for pkt in &udp_packets {
            if let Some(data) = receiver.recv(pkt, now_ms + 30) {
                received = Some(data);
            }
        }

        assert_eq!(
            received,
            Some(msg.to_vec()),
            "メッセージ #{} の送受信失敗",
            i + 1
        );
    }

    assert_eq!(
        receiver.ssp.stats().recv_num,
        messages.len() as u64,
        "受信番号がメッセージ数と一致すべき"
    );
}

#[test]
fn test_wrong_key_decryption_fails() {
    let key_correct = [0xAAu8; 16];
    let key_wrong = [0xBBu8; 16];

    let mut sender = Sender::new(key_correct, 500);
    let mut receiver = Receiver::new(key_wrong);

    let udp_packets = sender.send(b"secret message", 1000);

    for pkt in &udp_packets {
        let result = receiver.recv(pkt, 1050);
        assert!(result.is_none(), "異なる鍵では復号できてはいけない");
    }
}

#[test]
fn test_timestamp_wraparound_in_crypto() {
    let key = [0u8; 16];
    let mut sender = CryptoSession::from_key(key).unwrap();
    let mut receiver = CryptoSession::from_key(key).unwrap();

    let ts_near_max = 65535u16;
    let ts_after_wrap = 100u16;

    let pkt1 = sender
        .encrypt_packet(Direction::ToServer, ts_near_max, 0, b"near max")
        .unwrap();
    let dec1 = receiver.decrypt_packet(&pkt1).unwrap();
    assert_eq!(dec1.timestamp, ts_near_max);

    let pkt2 = sender
        .encrypt_packet(Direction::ToServer, ts_after_wrap, ts_near_max, b"after wrap")
        .unwrap();
    let dec2 = receiver.decrypt_packet(&pkt2).unwrap();
    assert_eq!(dec2.timestamp, ts_after_wrap);
    assert_eq!(dec2.timestamp_reply, ts_near_max);
}

#[test]
fn test_heartbeat_empty_payload() {
    let key = [0u8; 16];
    let mut sender = Sender::new(key, 500);

    let pkts = sender.heartbeat(mosh_core::ssp::HEARTBEAT_INTERVAL_MS);
    assert!(!pkts.is_empty(), "ハートビートパケットが生成されるべき");

    for pkt in &pkts {
        assert!(
            pkt.len() >= 46,
            "パケットサイズが最低限以上であるべき: {} bytes",
            pkt.len()
        );
    }
}
