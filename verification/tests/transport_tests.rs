use mosh_core::{Fragment, FragmentAssembly, Fragmenter, Timestamp16, TransportError, UdpPacket};

#[test]
fn test_fragment_roundtrip() {
    let frag = Fragment {
        instruction_id: 42,
        fragment_num: 0,
        is_final: true,
        payload: vec![1, 2, 3, 4, 5],
    };

    let bytes = frag.to_bytes();
    let restored = Fragment::from_bytes(&bytes).unwrap();

    assert_eq!(restored.instruction_id, 42);
    assert_eq!(restored.fragment_num, 0);
    assert!(restored.is_final);
    assert_eq!(restored.payload, vec![1, 2, 3, 4, 5]);
}

#[test]
fn test_fragmenter_single_fragment() {
    let mut fragmenter = Fragmenter::new(500);
    let data = vec![0u8; 100];
    let frags = fragmenter.make_fragments(&data);

    assert_eq!(frags.len(), 1);
    assert!(frags[0].is_final);
    assert_eq!(frags[0].fragment_num, 0);
    assert_eq!(frags[0].payload, data);
}

#[test]
fn test_fragmenter_multiple_fragments() {
    let mut fragmenter = Fragmenter::new(10);
    let data = vec![0u8; 25];
    let frags = fragmenter.make_fragments(&data);

    assert_eq!(frags.len(), 3);
    assert!(!frags[0].is_final);
    assert!(!frags[1].is_final);
    assert!(frags[2].is_final);
    assert_eq!(frags[0].fragment_num, 0);
    assert_eq!(frags[1].fragment_num, 1);
    assert_eq!(frags[2].fragment_num, 2);
}

#[test]
fn test_assembly_single_fragment() {
    let mut assembly = FragmentAssembly::new();
    let payload = vec![1, 2, 3, 4, 5];

    let frag = Fragment {
        instruction_id: 1,
        fragment_num: 0,
        is_final: true,
        payload: payload.clone(),
    };

    let result = assembly.add_fragment(frag);
    assert_eq!(result, Some(payload));
}

#[test]
fn test_assembly_multiple_fragments() {
    let mut assembly = FragmentAssembly::new();

    let frag0 = Fragment {
        instruction_id: 1,
        fragment_num: 0,
        is_final: false,
        payload: vec![1, 2, 3],
    };
    let frag1 = Fragment {
        instruction_id: 1,
        fragment_num: 1,
        is_final: true,
        payload: vec![4, 5, 6],
    };

    assert_eq!(assembly.add_fragment(frag1), None);
    let result = assembly.add_fragment(frag0);
    assert_eq!(result, Some(vec![1, 2, 3, 4, 5, 6]));
}

#[test]
fn test_assembly_new_id_resets() {
    let mut assembly = FragmentAssembly::new();

    let old_frag = Fragment {
        instruction_id: 1,
        fragment_num: 0,
        is_final: false,
        payload: vec![1, 2, 3],
    };
    assembly.add_fragment(old_frag);

    let new_frag = Fragment {
        instruction_id: 2,
        fragment_num: 0,
        is_final: true,
        payload: vec![9, 8, 7],
    };
    let result = assembly.add_fragment(new_frag);
    assert_eq!(result, Some(vec![9, 8, 7]));
}

#[test]
fn test_fragmenter_assembly_roundtrip() {
    let mut fragmenter = Fragmenter::new(10);
    let original: Vec<u8> = (0u8..100).collect();

    let frags = fragmenter.make_fragments(&original);
    assert!(frags.len() > 1);

    let mut assembly = FragmentAssembly::new();
    let mut result = None;
    for frag in frags {
        result = assembly.add_fragment(frag);
    }

    assert_eq!(result.unwrap(), original);
}

#[test]
fn test_is_final_bit_encoding() {
    let frag_final = Fragment {
        instruction_id: 1,
        fragment_num: 0,
        is_final: true,
        payload: vec![],
    };
    let bytes = frag_final.to_bytes();
    let frag_word = u16::from_be_bytes([bytes[8], bytes[9]]);
    assert_eq!(frag_word >> 15, 1);

    let frag_not_final = Fragment {
        instruction_id: 1,
        fragment_num: 3,
        is_final: false,
        payload: vec![],
    };
    let bytes2 = frag_not_final.to_bytes();
    let frag_word2 = u16::from_be_bytes([bytes2[8], bytes2[9]]);
    assert_eq!(frag_word2 >> 15, 0);
    assert_eq!(frag_word2 & 0x7FFF, 3);
}

#[test]
fn test_udp_packet_roundtrip() {
    let nonce_tail = [1u8, 2, 3, 4, 5, 6, 7, 8];
    let ciphertext = vec![0xABu8; 32];
    let packet = UdpPacket::new(nonce_tail, ciphertext.clone());

    let payload = packet.to_udp_payload();
    let restored = UdpPacket::from_udp_payload(&payload).unwrap();

    assert_eq!(restored.nonce_tail, nonce_tail);
    assert_eq!(restored.ciphertext, ciphertext);
}

#[test]
fn test_udp_packet_too_short() {
    let result = UdpPacket::from_udp_payload(&[0u8; 7]);
    assert_eq!(result, Err(TransportError::TooShort));
}

#[test]
fn test_udp_packet_total_len() {
    let nonce_tail = [0u8; 8];
    let ciphertext = vec![0u8; 50];
    let packet = UdpPacket::new(nonce_tail, ciphertext);
    assert_eq!(packet.total_len(), 58);
}

#[test]
fn test_timestamp_from_ms() {
    let ts = Timestamp16::now_from_ms(1000);
    assert_eq!(ts.raw(), 1000u16);
}

#[test]
fn test_timestamp_wraps() {
    let ts = Timestamp16::now_from_ms(65536);
    assert_eq!(ts.raw(), 0u16);

    let ts2 = Timestamp16::now_from_ms(65537);
    assert_eq!(ts2.raw(), 1u16);
}

#[test]
fn test_timestamp_diff_normal() {
    let older = Timestamp16(100);
    let newer = Timestamp16(200);
    assert_eq!(Timestamp16::diff(newer, older), 100);
}

#[test]
fn test_timestamp_diff_wraparound() {
    let older = Timestamp16(65000);
    let newer = Timestamp16(100);
    assert_eq!(Timestamp16::diff(newer, older), 636);
}

#[test]
fn test_timestamp_init() {
    assert!(!Timestamp16::init().is_initialized());
    assert!(Timestamp16(0).is_initialized());
    assert!(Timestamp16(100).is_initialized());
}

#[test]
fn test_fragment_roundtrip_various_sizes() {
    let test_sizes = [0usize, 1, 100, 466, 467, 1000, 10_000];

    for &size in &test_sizes {
        let original: Vec<u8> = (0u8..).take(size % 256).cycle().take(size).collect();

        let mut fragmenter = Fragmenter::new(466);
        let frags = fragmenter.make_fragments(&original);

        let mut assembly = FragmentAssembly::new();
        let mut assembled = None;

        for frag in frags {
            assembled = assembly.add_fragment(frag);
        }

        let result = assembled.unwrap_or_default();
        assert_eq!(result, original, "サイズ {} のラウンドトリップ失敗", size);
    }
}

#[test]
fn test_fragment_out_of_order_assembly() {
    let mut fragmenter = Fragmenter::new(10);

    let data: Vec<u8> = (0u8..30).collect();
    let frags = fragmenter.make_fragments(&data);
    assert_eq!(frags.len(), 3);

    let mut assembly = FragmentAssembly::new();
    let frag2 = frags[2].clone();
    let frag1 = frags[1].clone();
    let frag0 = frags[0].clone();

    assert!(assembly.add_fragment(frag2).is_none(), "最後から追加して再組み立て完了しないはず");
    assert!(assembly.add_fragment(frag1).is_none(), "中間追加で再組み立て完了しないはず");
    let result = assembly.add_fragment(frag0);

    assert_eq!(result, Some(data), "逆順フラグメントの再組み立て失敗");
}

#[test]
fn test_fragment_id_reset_discards_old() {
    let mut fragmenter = Fragmenter::new(5);
    let mut assembly = FragmentAssembly::new();

    let data1: Vec<u8> = vec![0u8; 15];
    let frags1 = fragmenter.make_fragments(&data1);

    assembly.add_fragment(frags1[0].clone());
    assert_eq!(assembly.current_id(), Some(1));

    let data2 = vec![9u8; 3];
    let frags2 = fragmenter.make_fragments(&data2);
    let result = assembly.add_fragment(frags2[0].clone());

    assert_eq!(result, Some(data2), "新しい ID で古いフラグメントが破棄されるべき");
    assert_eq!(assembly.current_id(), Some(2));
}

// ---- further cases ----

#[test]
fn fragment_wire_bytes_are_exact() {
    let frag = Fragment {
        instruction_id: 0x0102_0304_0506_0708,
        fragment_num: 0x1234,
        is_final: true,
        payload: vec![0xAA, 0xBB],
    };
    assert_eq!(
        frag.to_bytes(),
        vec![1, 2, 3, 4, 5, 6, 7, 8, 0x92, 0x34, 0xAA, 0xBB]
    );
    let frag = Fragment { is_final: false, ..frag };
    assert_eq!(
        frag.to_bytes(),
        vec![1, 2, 3, 4, 5, 6, 7, 8, 0x12, 0x34, 0xAA, 0xBB]
    );
}

#[test]
fn fragment_number_is_masked_to_fifteen_bits() {
    let frag = Fragment {
        instruction_id: 1,
        fragment_num: 0x8003,
        is_final: false,
        payload: vec![],
    };
    let bytes = frag.to_bytes();
    assert_eq!(&bytes[8..10], &[0x00, 0x03]);
    let back = Fragment::from_bytes(&bytes).unwrap();
    assert_eq!(back.fragment_num, 3);
    assert!(!back.is_final);
}

#[test]
fn fragment_from_bytes_needs_ten() {
    assert!(matches!(Fragment::from_bytes(&[0u8; 9]), Err(TransportError::TooShort)));
    assert!(matches!(Fragment::from_bytes(&[]), Err(TransportError::TooShort)));
    let f = Fragment::from_bytes(&[0, 0, 0, 0, 0, 0, 0, 5, 0x80, 0x02]).unwrap();
    assert_eq!(f.instruction_id, 5);
    assert_eq!(f.fragment_num, 2);
    assert!(f.is_final);
    assert!(f.payload.is_empty());
    assert_eq!(Fragment::HEADER_LEN, 10);
}

#[test]
fn empty_message_is_one_empty_final_fragment() {
    let mut fragmenter = Fragmenter::new(64);
    assert_eq!(fragmenter.current_id(), 1);
    let frags = fragmenter.make_fragments(&[]);
    assert_eq!(frags.len(), 1);
    assert_eq!(frags[0].instruction_id, 1);
    assert_eq!(frags[0].fragment_num, 0);
    assert!(frags[0].is_final);
    assert!(frags[0].payload.is_empty());
    assert_eq!(fragmenter.current_id(), 2);
}

#[test]
fn fragments_hold_the_chunks_in_order() {
    let mut fragmenter = Fragmenter::new(4);
    fragmenter.make_fragments(&[0]);
    let data: Vec<u8> = (0u8..10).collect();
    let frags = fragmenter.make_fragments(&data);
    assert_eq!(frags.len(), 3);
    assert_eq!(frags[0].payload, vec![0, 1, 2, 3]);
    assert_eq!(frags[1].payload, vec![4, 5, 6, 7]);
    assert_eq!(frags[2].payload, vec![8, 9]);
    for (i, f) in frags.iter().enumerate() {
        assert_eq!(f.instruction_id, 2);
        assert_eq!(f.fragment_num as usize, i);
        assert_eq!(f.is_final, i == 2);
    }
    // An exact multiple of the size gives no empty tail.
    let frags = fragmenter.make_fragments(&[7u8; 8]);
    assert_eq!(frags.len(), 2);
    assert!(frags[1].is_final);
    assert_eq!(frags[1].payload.len(), 4);
}

#[test]
fn every_order_of_four_fragments_reassembles() {
    let data: Vec<u8> = (0u8..35).collect();
    let orders: [[usize; 4]; 24] = [
        [0, 1, 2, 3], [0, 1, 3, 2], [0, 2, 1, 3], [0, 2, 3, 1], [0, 3, 1, 2], [0, 3, 2, 1],
        [1, 0, 2, 3], [1, 0, 3, 2], [1, 2, 0, 3], [1, 2, 3, 0], [1, 3, 0, 2], [1, 3, 2, 0],
        [2, 0, 1, 3], [2, 0, 3, 1], [2, 1, 0, 3], [2, 1, 3, 0], [2, 3, 0, 1], [2, 3, 1, 0],
        [3, 0, 1, 2], [3, 0, 2, 1], [3, 1, 0, 2], [3, 1, 2, 0], [3, 2, 0, 1], [3, 2, 1, 0],
    ];
    for order in orders.iter() {
        let mut fragmenter = Fragmenter::new(10);
        let frags = fragmenter.make_fragments(&data);
        assert_eq!(frags.len(), 4);
        let mut assembly = FragmentAssembly::new();
        for (n, &i) in order.iter().enumerate() {
            let out = assembly.add_fragment(frags[i].clone());
            if n < 3 {
                assert_eq!(out, None);
            } else {
                assert_eq!(out, Some(data.clone()));
            }
        }
    }
}

#[test]
fn fragments_survive_the_wire_in_any_order() {
    let data: Vec<u8> = (0..2000u32).map(|i| (i % 256) as u8).collect();
    let mut fragmenter = Fragmenter::new(154);
    let frags = fragmenter.make_fragments(&data);
    assert_eq!(frags.len(), 13);
    let mut assembly = FragmentAssembly::default();
    let mut out = None;
    for f in frags.iter().rev() {
        let back = Fragment::from_bytes(&f.to_bytes()).unwrap();
        out = assembly.add_fragment(back);
    }
    assert_eq!(out, Some(data));
}

#[test]
fn assembly_keeps_state_after_completion() {
    let mut assembly = FragmentAssembly::new();
    assert_eq!(assembly.current_id(), None);
    assert_eq!(assembly.try_assemble(), None);
    let whole = Fragment { instruction_id: 7, fragment_num: 0, is_final: true, payload: vec![1] };
    assert_eq!(assembly.add_fragment(whole.clone()), Some(vec![1]));
    assert_eq!(assembly.try_assemble(), Some(vec![1]));
    // The same fragment again is folded in and the message comes out again.
    assert_eq!(assembly.add_fragment(whole), Some(vec![1]));
    assert_eq!(assembly.current_id(), Some(7));
}

#[test]
fn reset_if_new_id_reports_and_discards() {
    let mut assembly = FragmentAssembly::new();
    assert!(assembly.reset_if_new_id(3));
    assert!(!assembly.reset_if_new_id(3));
    let part = Fragment { instruction_id: 3, fragment_num: 1, is_final: true, payload: vec![2] };
    assert_eq!(assembly.add_fragment(part), None);
    // An older identifier discards as well: any other message does.
    assert!(assembly.reset_if_new_id(2));
    let first = Fragment { instruction_id: 2, fragment_num: 0, is_final: false, payload: vec![1] };
    assert_eq!(assembly.add_fragment(first), None);
    assert_eq!(assembly.try_assemble(), None);
}

#[test]
fn a_newer_message_discards_a_finished_one() {
    let mut assembly = FragmentAssembly::new();
    let a = Fragment { instruction_id: 1, fragment_num: 0, is_final: true, payload: vec![1, 1] };
    assert_eq!(assembly.add_fragment(a), Some(vec![1, 1]));
    // Fragment 1 of message 2 must not be joined to fragment 0 of message 1.
    let b = Fragment { instruction_id: 2, fragment_num: 1, is_final: true, payload: vec![2] };
    assert_eq!(assembly.add_fragment(b), None);
    let c = Fragment { instruction_id: 2, fragment_num: 0, is_final: false, payload: vec![3] };
    assert_eq!(assembly.add_fragment(c), Some(vec![3, 2]));
}

#[test]
fn udp_packet_splits_after_eight_bytes() {
    let p = UdpPacket::from_udp_payload(&[1, 2, 3, 4, 5, 6, 7, 8]).unwrap();
    assert_eq!(p.nonce_tail, [1, 2, 3, 4, 5, 6, 7, 8]);
    assert!(p.ciphertext.is_empty());
    assert_eq!(p.total_len(), 8);
    let p = UdpPacket::from_udp_payload(&[1, 2, 3, 4, 5, 6, 7, 8, 9, 10]).unwrap();
    assert_eq!(p.ciphertext, vec![9, 10]);
    assert_eq!(p.to_udp_payload(), vec![1, 2, 3, 4, 5, 6, 7, 8, 9, 10]);
}

#[test]
fn timestamp_from_and_diff() {
    let t: Timestamp16 = Timestamp16::from(77u16);
    assert_eq!(t.raw(), 77);
    assert_eq!(Timestamp16::now_from_ms(0x1_2345_6789).raw(), 0x6789);
    assert_eq!(Timestamp16::diff(Timestamp16(0), Timestamp16(1)), 65535);
    assert_eq!(Timestamp16::diff(Timestamp16(5), Timestamp16(5)), 0);
    assert_eq!(Timestamp16::init().raw(), 0xFFFF);
}

#[test]
fn transport_error_messages() {
    assert_eq!(TransportError::TooShort.message(), "Packet or fragment too short");
    assert_eq!(TransportError::InvalidFragmentFormat.message(), "Invalid fragment format");
    assert_eq!(TransportError::AssemblyError.message(), "Fragment reassembly error");
}
