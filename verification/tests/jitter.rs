//! The jitter buffer.

use rtpsip::rtp::jitter::JitterStep;
use rtpsip::rtp::packet::RtpHeader;
use rtpsip::rtp::{JitterBuffer, JitterConfig, RtpPacket};

fn make_packet(seq: u16, timestamp: u32) -> RtpPacket {
    RtpPacket {
        header: RtpHeader {
            version: 2,
            padding: false,
            extension: false,
            marker: false,
            payload_type: 0,
            sequence_number: seq,
            timestamp,
            ssrc: 0x12345678,
            csrc: vec![],
            extension_profile: 0,
            extensions: vec![],
            extensions_padding: 0,
        },
        payload: vec![0xFF; 160],
    }
}

#[test]
fn test_jitter_buffer_in_order() {
    let mut jb = JitterBuffer::new();

    // Push packets in order
    for i in 0..5 {
        jb.push(make_packet(i, i as u32 * 160), 0);
    }

    // Should be ready after enough packets
    assert!(jb.is_ready());

    // Pop packets
    for i in 0..5 {
        let packet = jb.pop(60);
        assert!(packet.is_some());
        assert_eq!(packet.unwrap().header.sequence_number, i);
    }

    // Buffer should be empty
    assert!(jb.pop(60).is_none());
}

#[test]
fn test_jitter_buffer_out_of_order() {
    let mut jb = JitterBuffer::new();

    // Push packets out of order
    jb.push(make_packet(0, 0), 0);
    jb.push(make_packet(2, 320), 0); // Skip 1
    jb.push(make_packet(1, 160), 0); // Late arrival
    jb.push(make_packet(3, 480), 0);
    jb.push(make_packet(4, 640), 0);

    // Pop should still be in order
    assert_eq!(jb.pop(60).unwrap().header.sequence_number, 0);
    assert_eq!(jb.pop(60).unwrap().header.sequence_number, 1);
    assert_eq!(jb.pop(60).unwrap().header.sequence_number, 2);
    assert_eq!(jb.pop(60).unwrap().header.sequence_number, 3);
    assert_eq!(jb.pop(60).unwrap().header.sequence_number, 4);

    assert!(jb.stats.packets_reordered >= 1);
}

#[test]
fn test_sequence_wraparound() {
    assert!(JitterBuffer::sequence_before(65534, 65535));
    assert!(JitterBuffer::sequence_before(65535, 0));
    assert!(JitterBuffer::sequence_before(0, 1));
    assert!(!JitterBuffer::sequence_before(1, 0));
}

#[test]
fn test_nack_gap_exactly_100_not_dropped() {
    let mut config = JitterConfig::default();
    config.nack_enabled = true;
    let mut jb = JitterBuffer::with_config(config);

    // Push seq 0 -> next_sequence becomes 1
    // Push seq 101 -> gap = 101.wrapping_sub(1) = 100, exactly the max
    jb.push(make_packet(0, 0), 0);
    jb.push(make_packet(101, 101 * 160), 0);

    let nacks = jb.pending_nacks();
    assert_eq!(
        nacks.len(),
        100,
        "sequence gap of exactly 100 should generate 100 NACKs (seq 1..=100), got {}",
        nacks.len()
    );
    for expected in 1u16..=100 {
        assert!(
            nacks.contains(&expected),
            "NACK list should contain seq={}",
            expected
        );
    }
}

#[test]
fn test_nack_gap_101_is_dropped() {
    let mut config = JitterConfig::default();
    config.nack_enabled = true;
    let mut jb = JitterBuffer::with_config(config);

    // Push seq 0 -> next_sequence becomes 1
    // Push seq 102 -> gap = 102.wrapping_sub(1) = 101, exceeds max 100
    jb.push(make_packet(0, 0), 0);
    jb.push(make_packet(102, 102 * 160), 0);

    let nacks = jb.pending_nacks();
    // Sequence gap of 101 > 100 should be silently dropped
    assert_eq!(
        nacks.len(),
        0,
        "sequence gap of 101 should generate 0 NACKs, got {}",
        nacks.len()
    );
}

#[test]
fn test_nack_gap_99_still_works() {
    let mut config = JitterConfig::default();
    config.nack_enabled = true;
    let mut jb = JitterBuffer::with_config(config);

    // Push seq 0 -> next_sequence becomes 1
    // Push seq 100 -> gap = 100.wrapping_sub(1) = 99 (below max 100)
    jb.push(make_packet(0, 0), 0);
    jb.push(make_packet(100, 100 * 160), 0);

    let nacks = jb.pending_nacks();
    assert_eq!(
        nacks.len(),
        99,
        "sequence gap of 99 should generate 99 NACKs (seq 1..=99), got {}",
        nacks.len()
    );
}

#[test]
fn packets_come_out_as_they_were_put_in() {
    let mut jb = JitterBuffer::new();
    for i in 0..4u16 {
        let mut p = make_packet(i, i as u32 * 160);
        p.payload = vec![i as u8; 3];
        assert!(jb.push(p, i as u64 * 20_000_000) != JitterStep::Reset);
    }
    let out = jb.drain(60);
    assert_eq!(out.len(), 4);
    for (i, p) in out.iter().enumerate() {
        assert_eq!(p.payload, vec![i as u8; 3]);
        assert_eq!(p.header.timestamp, i as u32 * 160);
    }
    assert_eq!(jb.last_played_sequence(), Some(3));
}

#[test]
fn a_played_packet_is_not_taken_again() {
    let mut jb = JitterBuffer::new();
    for i in 0..4u16 {
        jb.push(make_packet(i, i as u32 * 160), 0);
    }
    assert_eq!(jb.pop(60).unwrap().header.sequence_number, 0);
    let dropped = jb.stats().packets_dropped;
    jb.push(make_packet(0, 0), 0);
    assert_eq!(jb.stats().packets_dropped, dropped + 1);
    assert!(!jb.contains_seq(0));
    assert!(jb.contains_seq(1));
}

#[test]
fn arrival_deviation_is_measured_in_milliseconds() {
    let mut jb = JitterBuffer::new();
    assert_eq!(jb.push(make_packet(0, 0), 0), JitterStep::Unchanged);
    assert_eq!(jb.push(make_packet(1, 160), 25_000_000), JitterStep::Deviation(5));
    assert_eq!(jb.push(make_packet(2, 320), 45_000_000), JitterStep::Deviation(0));
}

#[test]
fn reset_empties_the_buffer() {
    let mut jb = JitterBuffer::new();
    for i in 0..4u16 {
        jb.push(make_packet(i, i as u32 * 160), 0);
    }
    jb.reset();
    assert!(!jb.is_ready());
    assert_eq!(jb.stats().packets_received, 0);
    assert!(jb.pop(60).is_none());
}

#[test]
fn a_marker_makes_the_buffer_fill_again() {
    let mut jb = JitterBuffer::new();
    for i in 0..4u16 {
        jb.push(make_packet(i, i as u32 * 160), 0);
    }
    jb.reset_initial_buffering();
    assert!(!jb.contains_seq(3));
    assert_eq!(jb.stats().packets_received, 4);
    assert!(jb.has_room());
    assert!(jb.has_room_to_drain());
}

#[test]
fn sequence_after_is_the_mirror() {
    assert!(JitterBuffer::sequence_after(0, 65535));
    assert!(!JitterBuffer::sequence_after(65535, 0));
}

#[test]
fn packets_leave_in_the_order_of_their_numbers() {
    let mut jb = JitterBuffer::new();
    let order: [u16; 6] = [65534, 1, 0, 65535, 3, 2];
    for k in order.iter() {
        let step = k.wrapping_sub(65534) as u32;
        jb.push(make_packet(*k, 10_000 + step * 160), step as u64 * 20_000_000);
    }
    let mut played: Vec<u16> = Vec::new();
    for p in jb.drain(60).iter() {
        played.push(p.header.sequence_number);
    }
    assert_eq!(played, vec![65534, 65535, 0, 1, 2, 3]);
}

#[test]
fn a_long_run_plays_in_order() {
    let mut jb = JitterBuffer::new();
    assert!(jb.pop(60).is_none());

    // Packets come up to four steps late, some of them twice and some never.
    const STEPS: usize = 140_000;
    let mut arrivals: Vec<Vec<u32>> = vec![Vec::new(); STEPS + 8];
    let mut x: u32 = 1;
    for place in 0..STEPS as u32 {
        x = x.wrapping_mul(1_664_525).wrapping_add(1_013_904_223);
        let chance = x >> 16;
        if chance % 64 != 0 {
            arrivals[place as usize + (chance / 16 % 5) as usize].push(place);
        }
        if chance % 64 == 1 {
            arrivals[place as usize + 5].push(place);
        }
    }

    let mut last: Option<u32> = None;
    let mut count: usize = 0;
    for (step, places) in arrivals.iter().enumerate() {
        for &place in places.iter() {
            let mut p = make_packet((65_000 + place) as u16, place * 160);
            p.payload = place.to_be_bytes().to_vec();
            jb.push(p, step as u64 * 20_000_000);
        }
        let ready = jb.is_ready();
        while let Some(p) = jb.pop(60) {
            assert!(ready);
            let place = p.header.timestamp / 160;
            assert_eq!(p.payload, place.to_be_bytes().to_vec());
            assert_eq!(p.header.sequence_number, (65_000 + place) as u16);
            assert!(last.is_none() || last.unwrap() < place);
            last = Some(place);
            count += 1;
        }
    }
    assert!(count > STEPS / 2);
}

#[test]
fn redundant_blocks_fill_gaps() {
    let mut jb = JitterBuffer::new();
    let mut carrier = make_packet(10, 1600);
    // Two redundant blocks, 160 and 320 samples back, then the primary.
    carrier.payload = vec![
        0x80 | 8, 2, 128, 2, 0x80 | 9, 5, 0, 1, 0, 0xA1, 0xA2, 0xB1, 0xC1,
    ];
    jb.process_redundancy(&carrier);
    assert_eq!(jb.stats().nack_recovered, 2);
    assert!(jb.contains_seq(8));
    assert!(jb.contains_seq(7));
    assert!(!jb.contains_seq(10));

    // Both are there now.
    jb.process_redundancy(&carrier);
    assert_eq!(jb.stats().nack_recovered, 2);

    let mut payloads: Vec<(u16, u32, u8, Vec<u8>)> = Vec::new();
    for i in 9..13u16 {
        jb.push(make_packet(i, i as u32 * 160), 0);
    }
    for p in jb.drain(60).iter().take(2) {
        let h = &p.header;
        payloads.push((h.sequence_number, h.timestamp, h.payload_type, p.payload.clone()));
    }
    assert_eq!(payloads, vec![(7, 1280, 9, vec![0xB1]), (8, 1440, 8, vec![0xA1, 0xA2])]);
}

#[test]
fn a_long_redundant_payload_is_taken() {
    let mut jb = JitterBuffer::new();
    let mut carrier = make_packet(10, 1600);
    carrier.payload = vec![0x80, 2, 128, 2];
    for _ in 0..40_000 {
        carrier.payload.extend_from_slice(&[0x80, 2, 131, 255]);
    }
    carrier.payload.extend_from_slice(&[0, 1, 2]);
    jb.process_redundancy(&carrier);
    assert_eq!(jb.stats().nack_recovered, 1);
    assert!(jb.contains_seq(8));

    // A header that is cut off leaves everything as it was.
    carrier.payload = vec![0x80, 2, 128];
    jb.process_redundancy(&carrier);
    assert_eq!(jb.stats().nack_recovered, 1);
}
