use mosh_core::{
    Instruction, SspSession, HEARTBEAT_INTERVAL_MS, RTO_INITIAL_MS, RTO_MAX_MS, RTO_MIN_MS,
};

fn srtt_ms(session: &SspSession) -> f64 {
    session.stats().srtt_q32 as f64 / 4294967296.0
}

#[test]
fn test_ssp_session_new() {
    let session = SspSession::new();
    let stats = session.stats();
    assert_eq!(stats.send_num, 1);
    assert_eq!(stats.recv_num, 0);
    assert_eq!(stats.pending_count, 0);
}

#[test]
fn test_push_payload_and_tick() {
    let mut session = SspSession::new();
    session.push_payload(vec![1, 2, 3, 4]);

    let packets = session.tick(1000);
    assert_eq!(packets.len(), 1);

    let instr = Instruction::decode_from_bytes(&packets[0]).unwrap();
    assert_eq!(instr.new_num_or_zero(), 1);
    assert_eq!(instr.diff_bytes(), &[1, 2, 3, 4]);
}

#[test]
fn test_recv_instruction_updates_state() {
    let mut session = SspSession::new();

    let instr = Instruction::new_send(0, 1, 0, 0, vec![9, 8, 7]);
    let payload = session.recv_instruction(&instr, 1000);

    assert_eq!(payload, Some(vec![9, 8, 7]));
    assert_eq!(session.stats().recv_num, 1);
}

#[test]
fn test_ack_handling() {
    let mut session = SspSession::new();

    session.push_payload(vec![1, 2, 3]);
    let _ = session.tick(1000);
    assert_eq!(session.stats().pending_count, 1);

    let ack = Instruction::new_ack(1, 0);
    session.recv_instruction(&ack, 1100);

    assert_eq!(session.stats().pending_count, 0);
    assert_eq!(session.stats().send_num, 2);
}

#[test]
fn test_heartbeat_needed() {
    let mut session = SspSession::new();

    assert!(session.needs_heartbeat(HEARTBEAT_INTERVAL_MS));

    let packets = session.tick(HEARTBEAT_INTERVAL_MS);
    assert!(!packets.is_empty());

    assert!(!session.needs_heartbeat(HEARTBEAT_INTERVAL_MS));
}

#[test]
fn test_duplicate_recv_ignored() {
    let mut session = SspSession::new();

    let instr = Instruction::new_send(0, 1, 0, 0, vec![1]);
    let payload1 = session.recv_instruction(&instr, 1000);
    let payload2 = session.recv_instruction(&instr, 1001);

    assert!(payload1.is_some());
    assert!(payload2.is_none());
}

#[test]
fn test_rtt_update() {
    let mut session = SspSession::new();

    session.push_payload(vec![0]);
    let _ = session.tick(0);

    let ack = Instruction::new_ack(1, 0);
    session.recv_instruction(&ack, 150);

    assert!(srtt_ms(&session) > 0.0);
    assert!(session.stats().rto_ms >= RTO_MIN_MS);
    assert!(session.stats().rto_ms <= RTO_MAX_MS);
}

#[test]
fn test_bidirectional_ssp_communication() {
    let mut client = SspSession::new();
    let mut server = SspSession::new();

    let mut now_ms: u64 = 1000;

    let client_payload = b"Hello from client!".to_vec();
    client.push_payload(client_payload.clone());

    let client_packets = client.tick(now_ms);
    assert_eq!(client_packets.len(), 1, "クライアントが1パケット生成すべき");

    let instr = Instruction::decode_from_bytes(&client_packets[0]).unwrap();
    let received = server.recv_instruction(&instr, now_ms + 50);
    assert_eq!(received, Some(client_payload.clone()), "サーバーがクライアントのデータを受信");

    now_ms += 100;

    let server_payload = b"Hello from server!".to_vec();
    server.push_payload(server_payload.clone());

    let server_packets = server.tick(now_ms);
    assert!(!server_packets.is_empty(), "サーバーが返信パケットを生成");

    let server_instr = Instruction::decode_from_bytes(&server_packets[0]).unwrap();
    let server_ack_num = server_instr.ack_num_or_zero();
    assert_eq!(server_ack_num, 1, "サーバーがクライアントの Instruction #1 を ACK");

    let client_received = client.recv_instruction(&server_instr, now_ms + 50);
    assert_eq!(client_received, Some(server_payload.clone()), "クライアントがサーバーのデータを受信");

    assert_eq!(client.stats().pending_count, 0, "ACK 受信後 pending はゼロ");
}

#[test]
fn test_multiple_sequential_payloads() {
    let mut sender = SspSession::new();
    let mut receiver = SspSession::new();

    let payloads: Vec<Vec<u8>> = vec![
        b"First message".to_vec(),
        b"Second message".to_vec(),
        b"Third message".to_vec(),
    ];

    let mut now_ms: u64 = 1000;
    let mut received_payloads = Vec::new();

    for payload in &payloads {
        sender.push_payload(payload.clone());
        let packets = sender.tick(now_ms);
        now_ms += 10;

        for pkt_bytes in &packets {
            let instr = Instruction::decode_from_bytes(pkt_bytes).unwrap();
            if let Some(data) = receiver.recv_instruction(&instr, now_ms) {
                received_payloads.push(data);
            }
        }
    }

    assert_eq!(received_payloads.len(), payloads.len(), "すべてのペイロードが受信されるべき");
    for (expected, actual) in payloads.iter().zip(received_payloads.iter()) {
        assert_eq!(expected, actual, "ペイロード内容が一致すべき");
    }
}

#[test]
fn test_retransmission_on_timeout() {
    let mut session = SspSession::new();

    session.push_payload(b"retransmit me".to_vec());
    let initial_packets = session.tick(0);
    assert_eq!(initial_packets.len(), 1);

    let no_retransmit = session.tick(500);
    assert!(no_retransmit.is_empty(), "RTO前は再送しないべき");

    let retransmit_packets = session.tick(1100);
    assert!(!retransmit_packets.is_empty(), "RTO超過後に再送すべき");
}

#[test]
fn test_no_retransmit_after_ack() {
    let mut session = SspSession::new();

    session.push_payload(b"ack me".to_vec());
    let _ = session.tick(0);
    assert_eq!(session.stats().pending_count, 1);

    let ack = Instruction::new_ack(1, 0);
    session.recv_instruction(&ack, 200);
    assert_eq!(session.stats().pending_count, 0, "ACK後 pending はゼロ");

    let packets = session.tick(2000);
    for pkt_bytes in &packets {
        let instr = Instruction::decode_from_bytes(pkt_bytes).unwrap();
        assert_eq!(instr.new_num_or_zero(), 0, "ACK後はハートビートのみ");
    }
}

#[test]
fn test_throwaway_num_propagation() {
    let mut client = SspSession::new();
    let mut server = SspSession::new();

    for i in 0..3u8 {
        client.push_payload(vec![i]);
        let packets = client.tick(1000 + i as u64 * 100);
        for pkt_bytes in &packets {
            let instr = Instruction::decode_from_bytes(pkt_bytes).unwrap();
            server.recv_instruction(&instr, 1050 + i as u64 * 100);
        }
    }

    server.push_payload(b"ack".to_vec());
    let server_packets = server.tick(1400);
    assert!(!server_packets.is_empty());

    let instr = Instruction::decode_from_bytes(&server_packets[0]).unwrap();
    let ack_num = instr.ack_num_or_zero();
    assert_eq!(ack_num, 3, "サーバーがクライアントの最新 Instruction を ACK");
}

#[test]
fn test_rtt_convergence() {
    let mut session = SspSession::new();

    for i in 0..10u64 {
        session.push_payload(b"probe".to_vec());
        let _ = session.tick(i * 200);

        let ack = Instruction::new_ack(i + 1, 0);
        session.recv_instruction(&ack, i * 200 + 100);
    }

    let stats = session.stats();
    let srtt = stats.srtt_q32 as f64 / 4294967296.0;
    assert!(srtt > 0.0, "SRTT は正値であるべき");
    assert!(srtt < 200.0, "SRTT は 200ms 以下のはず");
    assert!(stats.rto_ms >= RTO_MIN_MS, "RTO は最小値以上");
    assert!(stats.rto_ms <= RTO_MAX_MS, "RTO は最大値以下");
}

#[test]
fn test_heartbeat_interval_exact() {
    let mut session = SspSession::new();
    let base_ms: u64 = 10_000;

    let _ = session.tick(base_ms);

    assert!(
        !session.needs_heartbeat(base_ms + HEARTBEAT_INTERVAL_MS - 1),
        "インターバル未満ではハートビート不要"
    );

    assert!(
        session.needs_heartbeat(base_ms + HEARTBEAT_INTERVAL_MS),
        "インターバル経過後はハートビート必要"
    );
}

#[test]
fn test_ssp_heartbeat_via_tick() {
    let mut session = SspSession::new();

    let heartbeat_time = mosh_core::ssp::HEARTBEAT_INTERVAL_MS;
    let packets = session.tick(heartbeat_time);

    assert!(!packets.is_empty(), "ハートビートが生成されるべき");

    let instr = Instruction::decode_from_bytes(&packets[0]).unwrap();
    assert_eq!(instr.new_num_or_zero(), 0, "ハートビートは new_num = 0");
}

// ---- further cases ----

#[test]
fn constants() {
    assert_eq!(HEARTBEAT_INTERVAL_MS, 3000);
    assert_eq!(RTO_MIN_MS, 50);
    assert_eq!(RTO_MAX_MS, 1000);
    assert_eq!(RTO_INITIAL_MS, 1000);
    assert_eq!(SspSession::default().stats().rto_ms, 1000);
    assert_eq!(SspSession::new().stats().srtt_q32, 0);
}

#[test]
fn timeout_follows_the_formula() {
    // One sample of 150 ms: srtt 150, rttvar 75, rto 150 + max(50, 300).
    let mut session = SspSession::new();
    session.push_payload(vec![0]);
    session.tick(0);
    session.recv_instruction(&Instruction::new_ack(1, 0), 150);
    assert_eq!(session.stats().srtt_q32, 150u128 << 32);
    assert_eq!(session.stats().rto_ms, 450);

    // A second sample of 50 ms: rttvar = 0.75 * 75 + 0.25 * 100 = 81.25,
    // srtt = 0.875 * 150 + 0.125 * 50 = 137.5, rto = 137.5 + 325 = 462.
    session.push_payload(vec![0]);
    session.tick(1000);
    session.recv_instruction(&Instruction::new_ack(2, 0), 1050);
    assert_eq!(session.stats().srtt_q32, (137u128 << 32) + (1u128 << 31));
    assert_eq!(session.stats().rto_ms, 462);
}

#[test]
fn timeout_of_steady_samples() {
    // Samples of 100 ms: srtt stays 100, rttvar goes 50, 37.5, 28.125, ...
    let expected = [300u64, 250, 212, 184, 163, 150, 150, 150];
    let mut session = SspSession::new();
    for (i, &rto) in expected.iter().enumerate() {
        let t = i as u64 * 5000;
        session.push_payload(vec![1]);
        session.tick(t);
        session.recv_instruction(&Instruction::new_ack(i as u64 + 1, 0), t + 100);
        assert_eq!(session.stats().rto_ms, rto);
        assert_eq!(session.stats().srtt_q32, 100u128 << 32);
    }
}

#[test]
fn timeout_stays_within_its_bounds() {
    let samples = [0u64, 1, 0, 10, 5000, 0, u64::MAX, 3, 0, 0, 0, 999, 1000, 1001, 49, 50, 51];
    let mut session = SspSession::new();
    let mut num = 0;
    for &sample in samples.iter() {
        session.push_payload(vec![1]);
        session.tick(0);
        num += 1;
        session.recv_instruction(&Instruction::new_ack(num, 0), sample);
        let rto = session.stats().rto_ms;
        assert!((50..=1000).contains(&rto), "rto {} after sample {}", rto, sample);
        assert_eq!(session.stats().pending_count, 0);
    }
    // A first sample of 0 ms gives the least timeout.
    let mut session = SspSession::new();
    session.push_payload(vec![1]);
    session.tick(7);
    session.recv_instruction(&Instruction::new_ack(1, 0), 7);
    assert_eq!(session.stats().rto_ms, 50);
    assert_eq!(session.stats().srtt_q32, 0);
    // A huge one gives the largest.
    let mut session = SspSession::new();
    session.push_payload(vec![1]);
    session.tick(0);
    session.recv_instruction(&Instruction::new_ack(1, 0), u64::MAX);
    assert_eq!(session.stats().rto_ms, 1000);
    assert_eq!(session.stats().srtt_q32, (u64::MAX as u128) << 32);
}

#[test]
fn retransmission_carries_the_same_bytes_and_gives_no_sample() {
    let mut session = SspSession::new();
    session.push_payload(b"once".to_vec());
    let first = session.tick(0);
    assert_eq!(first.len(), 1);
    assert!(session.tick(500).is_empty());
    assert!(session.tick(999).is_empty());
    let again = session.tick(1100);
    assert_eq!(again, first);
    assert_eq!(session.stats().pending_count, 1);
    // The timer starts anew with the retransmission.
    assert!(session.tick(2099).is_empty());
    assert_eq!(session.tick(2100), first);

    session.recv_instruction(&Instruction::new_ack(1, 0), 2200);
    assert_eq!(session.stats().pending_count, 0);
    assert_eq!(session.stats().srtt_q32, 0);
    assert_eq!(session.stats().rto_ms, 1000);
}

#[test]
fn all_due_messages_are_sent_again_in_order() {
    let mut session = SspSession::new();
    let mut sent = Vec::new();
    for (i, t) in [0u64, 10, 20].iter().enumerate() {
        session.push_payload(vec![i as u8 + 1]);
        let out = session.tick(*t);
        assert_eq!(out.len(), 1);
        sent.push(out[0].clone());
    }
    assert_eq!(session.stats().pending_count, 3);
    // At 1015 the first two have waited 1000 ms, the third has not.
    assert_eq!(session.tick(1015), vec![sent[0].clone(), sent[1].clone()]);
    assert_eq!(session.tick(1020), vec![sent[2].clone()]);
    // An acknowledgement of the second retires the first two.
    session.recv_instruction(&Instruction::new_ack(2, 0), 1030);
    assert_eq!(session.stats().pending_count, 1);
    assert_eq!(session.stats().srtt_q32, 0);
    session.recv_instruction(&Instruction::new_ack(3, 0), 1040);
    assert_eq!(session.stats().pending_count, 0);
    assert_eq!(session.stats().srtt_q32, 0);
}

#[test]
fn sending_n_then_ack_of_the_last() {
    for n in [0u64, 1, 2, 17] {
        let mut session = SspSession::new();
        for i in 0..n {
            session.push_payload(vec![i as u8, 1]);
            assert_eq!(session.tick(i * 7).len(), 1);
        }
        assert_eq!(session.stats().pending_count as u64, n);
        session.recv_instruction(&Instruction::new_ack(n, 0), n * 7 + 1);
        assert_eq!(session.stats().pending_count, 0);
        assert_eq!(session.stats().send_num, n + 1);
    }
}

#[test]
fn stale_acknowledgement_changes_nothing() {
    let mut session = SspSession::new();
    for i in 0..3u64 {
        session.push_payload(vec![1]);
        session.tick(i);
    }
    session.recv_instruction(&Instruction::new_ack(2, 0), 100);
    assert_eq!(session.stats().pending_count, 1);
    let srtt = session.stats().srtt_q32;
    session.recv_instruction(&Instruction::new_ack(1, 0), 900);
    session.recv_instruction(&Instruction::new_ack(2, 0), 900);
    assert_eq!(session.stats().pending_count, 1);
    assert_eq!(session.stats().srtt_q32, srtt);
}

#[test]
fn sent_message_carries_the_session_numbers() {
    let mut session = SspSession::new();
    session.recv_instruction(&Instruction::new_send(0, 5, 0, 3, vec![1]), 10);
    session.push_payload(vec![7]);
    session.push_payload(vec![8, 9]);
    let out = session.tick(20);
    assert_eq!(out.len(), 1);
    assert_eq!(out[0], Instruction::new_send(0, 1, 5, 3, vec![7, 8, 9]).encode_to_bytes());
    let i = Instruction::decode_from_bytes(&out[0]).unwrap();
    assert_eq!(i.old_num_or_zero(), 0);
    assert_eq!(i.new_num_or_zero(), 1);
    assert_eq!(i.ack_num_or_zero(), 5);
    assert_eq!(i.throwaway_num_or_zero(), 3);
    assert_eq!(i.protocol_version, Some(2));

    session.recv_instruction(&Instruction::new_ack(1, 2), 30);
    session.push_payload(vec![1]);
    let out = session.tick(40);
    let i = Instruction::decode_from_bytes(&out[0]).unwrap();
    assert_eq!(i.old_num_or_zero(), 1);
    assert_eq!(i.new_num_or_zero(), 2);
    // The throwaway mark never goes down.
    assert_eq!(i.throwaway_num_or_zero(), 3);
}

#[test]
fn heartbeat_cadence() {
    let mut session = SspSession::new();
    session.recv_instruction(&Instruction::new_send(0, 4, 0, 9, vec![1]), 1);
    let out = session.tick(10_000);
    assert_eq!(out.len(), 1);
    assert_eq!(out[0], Instruction::new_ack(4, 9).encode_to_bytes());
    assert_eq!(out[0], session.make_ack(10_000).encode_to_bytes());
    let hb = Instruction::decode_from_bytes(&out[0]).unwrap();
    assert_eq!(hb.new_num_or_zero(), 0);
    assert_eq!(hb.ack_num_or_zero(), 4);
    assert!(!hb.has_diff());
    assert_eq!(session.stats().pending_count, 0);

    assert!(!session.needs_heartbeat(10_000 + 2999));
    assert!(session.needs_heartbeat(10_000 + 3000));
    assert!(session.tick(12_999).is_empty());
    assert_eq!(session.tick(13_000).len(), 1);
    assert!(session.tick(13_000).is_empty());
    // A clock that runs backwards asks for nothing.
    assert!(!session.needs_heartbeat(0));
}

#[test]
fn heartbeats_and_old_numbers_deliver_nothing() {
    let mut session = SspSession::new();
    assert_eq!(session.recv_instruction(&Instruction::new_send(0, 3, 0, 0, vec![3]), 1), Some(vec![3]));
    assert_eq!(session.recv_instruction(&Instruction::new_send(0, 2, 0, 0, vec![2]), 2), None);
    assert_eq!(session.recv_instruction(&Instruction::new_send(0, 3, 0, 0, vec![3]), 3), None);
    assert_eq!(session.stats().recv_num, 3);
    assert_eq!(session.recv_instruction(&Instruction::new_ack(0, 0), 4), None);
    let mut zero = Instruction::new_send(0, 0, 0, 0, vec![1]);
    zero.new_num = None;
    assert_eq!(session.recv_instruction(&zero, 5), None);
    assert_eq!(session.stats().recv_num, 3);
    // A new message without a diff is taken and delivers nothing.
    assert_eq!(session.recv_instruction(&Instruction::new_send(0, 4, 0, 0, vec![]), 6), None);
    assert_eq!(session.stats().recv_num, 4);
    assert_eq!(session.recv_instruction(&Instruction::new_send(0, 5, 0, 0, vec![5]), 7), Some(vec![5]));
}
