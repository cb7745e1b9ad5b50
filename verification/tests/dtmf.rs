//! Digits as telephone events.

use rtpsip::rtp::dtmf::{RtpBugFlags, DEFAULT_VOLUME};
use rtpsip::rtp::{DtmfDetector, DtmfEvent, DtmfPacket, DtmfPayload, DtmfSender};

#[test]
fn test_dtmf_event_from_char() {
    assert_eq!(DtmfEvent::from_char('0'), Some(DtmfEvent::Digit0));
    assert_eq!(DtmfEvent::from_char('9'), Some(DtmfEvent::Digit9));
    assert_eq!(DtmfEvent::from_char('*'), Some(DtmfEvent::Star));
    assert_eq!(DtmfEvent::from_char('#'), Some(DtmfEvent::Pound));
    assert_eq!(DtmfEvent::from_char('A'), Some(DtmfEvent::A));
    assert_eq!(DtmfEvent::from_char('a'), Some(DtmfEvent::A));
    assert_eq!(DtmfEvent::from_char('X'), None);
}

#[test]
fn test_dtmf_payload_parse() {
    // Event 1, end=true, volume=10, duration=160
    let data = [1, 0x8A, 0, 160];
    let payload = DtmfPayload::parse(&data).unwrap();
    assert_eq!(payload.event, 1);
    assert!(payload.is_end);
    assert_eq!(payload.volume, 10);
    assert_eq!(payload.duration, 160);

    // Event 2, end=false, volume=0, duration=160
    let data = [2, 0x00, 0, 160];
    let payload = DtmfPayload::parse(&data).unwrap();
    assert_eq!(payload.event, 2);
    assert!(!payload.is_end);

    // Invalid event code (>15)
    let data = [20, 0x80, 10, 100];
    assert!(DtmfPayload::parse(&data).is_none());

    // Too short
    let data = [1, 0x80, 10];
    assert!(DtmfPayload::parse(&data).is_none());

    // Duration 800 = 0x0320
    let data = [2, 0x8A, 3, 32];
    let payload = DtmfPayload::parse(&data).unwrap();
    assert_eq!(payload.duration, 800);
}

#[test]
fn test_dtmf_payload_serialize() {
    let payload = DtmfPayload::new(DtmfEvent::Digit5, true, 160);
    let bytes = payload.serialize();

    assert_eq!(bytes[0], 5);
    assert_eq!(bytes[1] & 0x80, 0x80); // end bit
    assert_eq!(bytes[1] & 0x3F, DEFAULT_VOLUME);
    assert_eq!((bytes[2] as u16) << 8 | bytes[3] as u16, 160);
}

#[test]
fn test_dtmf_payload_roundtrip() {
    let sent = DtmfPayload::new(DtmfEvent::Star, true, 320);
    let bytes = sent.serialize();
    let parsed = DtmfPayload::parse(&bytes).unwrap();

    assert_eq!(parsed.event, sent.event);
    assert_eq!(parsed.is_end, sent.is_end);
    assert_eq!(parsed.duration, sent.duration);
}

#[test]
fn test_dtmf_duration_conversion() {
    assert_eq!(DtmfPayload::ms_to_timestamp(100), 800);
    assert_eq!(DtmfPayload::timestamp_to_ms(800), 100);
    assert_eq!(DtmfPayload::ms_to_timestamp(20), 160);
    assert_eq!(DtmfPayload::timestamp_to_ms(160), 20);
}

#[test]
fn test_dtmf_sender_generate_digit() {
    let mut sender = DtmfSender::new(0x12345678);
    let mut seq: u16 = 1000;
    let audio_ts: u32 = 48000;
    let packets = sender.generate_digit('5', 100, 20, &mut seq, audio_ts).unwrap();

    // Should have multiple packets
    assert!(packets.len() >= 3); // At least start + end*3

    // First packet should have marker
    assert!(packets[0].marker);

    // All packets should have same timestamp (drawn from audio stream)
    let ts = packets[0].timestamp;
    assert_eq!(ts, audio_ts);
    for packet in &packets {
        assert_eq!(packet.timestamp, ts);
    }

    assert_eq!(packets[0].sequence, 1000);
    let n = packets.len();
    // Non-END packets are monotonically increasing
    for i in 1..n.saturating_sub(3) {
        assert_eq!(packets[i].sequence, packets[i - 1].sequence.wrapping_add(1));
    }
    // Last 3 END packets share the same sequence number
    assert!(n >= 3);
    let end_seq = packets[n - 3].sequence;
    assert_eq!(packets[n - 2].sequence, end_seq);
    assert_eq!(packets[n - 1].sequence, end_seq);

    // The shared seq counter should have been advanced by (total - 2)
    // since the 3 END packets consume only 1 sequence number.
    let non_end_count = n - 3;
    let expected_seq = 1000u16.wrapping_add(non_end_count as u16 + 1);
    assert_eq!(seq, expected_seq);

    // Last 3 packets should have end bit
    let last_payload = DtmfPayload::parse(&packets[packets.len() - 1].payload).unwrap();
    assert!(last_payload.is_end);
}

#[test]
fn test_dtmf_detector() {
    let mut detector = DtmfDetector::new();

    // Simulate receiving DTMF digit '5' with increasing duration
    let ts = 1000u32;

    // Intermediate packets (no detection yet)
    let payload1 = [5, 0x0A, 0, 160]; // duration=160, no end
    let result = detector.process_rtp(101, 1, ts, &payload1, 0);
    assert!(result.is_none());

    let payload2 = [5, 0x0A, 1, 64]; // duration=320, no end
    let result = detector.process_rtp(101, 2, ts, &payload2, 0);
    assert!(result.is_none());

    // End packet - should detect
    let payload3 = [5, 0x8A, 3, 32]; // duration=800, end=true
    let result = detector.process_rtp(101, 3, ts, &payload3, 0);
    assert!(result.is_some());
    assert_eq!(result.unwrap().digit, '5');
}

#[test]
fn test_dtmf_detector_new_digit() {
    let mut detector = DtmfDetector::new();

    // First digit '5'
    let payload1 = [5, 0x8A, 0, 160]; // end=true
    let result = detector.process_rtp(101, 1, 1000, &payload1, 0);
    assert!(result.is_some());
    assert_eq!(result.unwrap().digit, '5');

    // New digit '6' with different timestamp
    let payload2 = [6, 0x8A, 0, 160]; // end=true
    let result = detector.process_rtp(101, 2, 2000, &payload2, 0);
    assert!(result.is_some());
    assert_eq!(result.unwrap().digit, '6');
}

#[test]
fn test_dtmf_detector_wrong_pt() {
    let mut detector = DtmfDetector::new(); // expects PT 101

    let payload = [5, 0x8A, 0, 160];
    let result = detector.process_rtp(0, 1, 1000, &payload, 0);
    assert!(result.is_none());
}

#[test]
fn test_dtmf_payload_4byte_offset() {
    // Edge case: some SBCs/gateways send 4 bytes of zero padding
    // [0,0,0,0,event,flags,dur_hi,dur_lo]
    let data_with_padding = [0, 0, 0, 0, 5, 0x8A, 0, 160];
    let payload = DtmfPayload::parse(&data_with_padding).unwrap();
    assert_eq!(payload.event, 5);
    assert!(payload.is_end);
    assert_eq!(payload.duration, 160);
}

#[test]
fn test_dtmf_payload_all_zero_is_digit_zero() {
    let data = [0, 0, 0, 0];
    let payload = DtmfPayload::parse(&data).unwrap();
    assert_eq!(payload.event, 0); // Digit '0'
    assert!(!payload.is_end);
    assert_eq!(payload.volume, 0);
    assert_eq!(payload.duration, 0);
}

#[test]
fn test_dtmf_detector_duration_wraparound() {
    // "Flip" mechanism: 16-bit duration wraps at 0xFFFF (~8.19 seconds)
    let mut detector = DtmfDetector::new();
    let ts = 1000u32;

    // Send packets with increasing duration approaching wrap
    let payload1 = [5, 0x0A, 0xFC, 0x00]; // duration=0xFC00 (~7.9 sec)
    detector.process_rtp(101, 1, ts, &payload1, 0);

    let payload2 = [5, 0x0A, 0xFF, 0x00]; // duration=0xFF00 (~8.1 sec)
    detector.process_rtp(101, 2, ts, &payload2, 0);

    // Duration wraps around (went from 0xFF00 to 0x0100)
    let payload3 = [5, 0x0A, 0x01, 0x00]; // duration=0x0100 (after wrap)
    detector.process_rtp(101, 3, ts, &payload3, 0);

    // End packet with wrapped duration
    let payload4 = [5, 0x8A, 0x02, 0x00]; // duration=0x0200, end=true
    let result = detector.process_rtp(101, 4, ts, &payload4, 0);

    // Should have detected the wraparound and accumulated
    assert!(result.is_some());
    let detected = result.unwrap();
    assert_eq!(detected.digit, '5');
    // Total should be 0x0200 + 0xFFFF = 0x101FF = 65,791 samples
    // At 8kHz: 65,791 / 8 = ~8223ms
    assert!(detected.duration_ms > 8000);
}

#[test]
fn test_sonus_mode_timestamp_increment() {
    let mut sender = DtmfSender::new(0x12345678);
    sender.enable_sonus_mode();

    let mut seq: u16 = 0;
    let audio_ts: u32 = 48000;
    let packets = sender.generate_digit('5', 100, 20, &mut seq, audio_ts).unwrap();

    // In Sonus mode, timestamps should increment (unlike normal mode)
    assert!(packets.len() >= 3);

    // Check that timestamps are different between packets
    let ts1 = packets[0].timestamp;
    let ts2 = packets[1].timestamp;

    // First timestamp should come from the audio stream
    assert_eq!(ts1, audio_ts, "Sonus mode should start from audio timestamp");

    assert_ne!(ts1, ts2, "Sonus mode should have different timestamps per packet");
    assert_eq!(ts2.wrapping_sub(ts1), 160, "Sonus mode should increment by 160");
}

#[test]
fn test_sonus_mode_no_marker_bit() {
    // Sonus mode should disable marker bit
    let mut sender = DtmfSender::new(0x12345678);
    sender.enable_sonus_mode();

    let mut seq: u16 = 0;
    let packets = sender.generate_digit('5', 100, 20, &mut seq, 48000).unwrap();

    // In Sonus mode, NO packet should have marker bit (even first one)
    for packet in &packets {
        assert!(!packet.marker, "Sonus mode should never set marker bit");
    }
}

#[test]
fn test_normal_mode_constant_timestamp() {
    // Normal mode: all packets for one digit have same timestamp
    let mut sender = DtmfSender::new(0x12345678);
    let mut seq: u16 = 0;
    let audio_ts: u32 = 48000;
    let packets = sender.generate_digit('5', 100, 20, &mut seq, audio_ts).unwrap();

    assert!(packets.len() >= 3);

    let ts = packets[0].timestamp;
    assert_eq!(ts, audio_ts, "DTMF timestamp should come from audio stream");
    for packet in &packets {
        assert_eq!(packet.timestamp, ts, "Normal mode should have constant timestamp");
    }
}

#[test]
fn test_normal_mode_marker_on_first() {
    // Normal mode: first packet should have marker bit
    let mut sender = DtmfSender::new(0x12345678);
    let mut seq: u16 = 0;
    let packets = sender.generate_digit('5', 100, 20, &mut seq, 48000).unwrap();

    assert!(packets[0].marker, "Normal mode should set marker on first packet");

    // Subsequent packets should NOT have marker
    for packet in packets.iter().skip(1) {
        assert!(!packet.marker, "Normal mode should not set marker on subsequent packets");
    }
}

#[test]
fn test_rtp_bug_flags() {
    let mut flags = RtpBugFlags::default();
    assert!(!flags.sonus_dtmf_timestamp);
    assert!(!flags.never_send_marker);

    flags.sonus_dtmf_timestamp = true;
    flags.never_send_marker = true;

    let sender = DtmfSender::with_rtp_bugs(0x12345678, flags);
    assert!(sender.rtp_bugs().sonus_dtmf_timestamp);
    assert!(sender.rtp_bugs().never_send_marker);
}

#[test]
fn test_auto_detect_sonus() {
    // Sonus devices should trigger both workarounds
    let flags = RtpBugFlags::detect_from_user_agent("Sonus-SBC/5.1.0");
    assert!(flags.sonus_dtmf_timestamp);
    assert!(flags.never_send_marker);
    assert!(flags.has_workarounds());

    // Case insensitive
    let flags = RtpBugFlags::detect_from_user_agent("SONUS_GATEWAY");
    assert!(flags.sonus_dtmf_timestamp);

    let flags = RtpBugFlags::detect_from_user_agent("sonus");
    assert!(flags.sonus_dtmf_timestamp);
}

#[test]
fn test_auto_detect_cisco() {
    // Cisco devices should only trigger marker bit workaround
    let flags = RtpBugFlags::detect_from_user_agent("Cisco-Gateway/IOS-12.x");
    assert!(!flags.sonus_dtmf_timestamp);
    assert!(flags.never_send_marker);
    assert!(flags.has_workarounds());

    // Case insensitive
    let flags = RtpBugFlags::detect_from_user_agent("CISCO_IOS");
    assert!(flags.never_send_marker);
}

#[test]
fn test_auto_detect_unknown() {
    // Unknown devices should have no workarounds
    let flags = RtpBugFlags::detect_from_user_agent("Orc-PBX/1.0");
    assert!(!flags.sonus_dtmf_timestamp);
    assert!(!flags.never_send_marker);
    assert!(!flags.has_workarounds());

    let flags = RtpBugFlags::detect_from_user_agent("Asterisk/16.0");
    assert!(!flags.has_workarounds());

    let flags = RtpBugFlags::detect_from_user_agent("");
    assert!(!flags.has_workarounds());
}

#[test]
fn test_rtp_bug_flags_merge() {
    let mut flags1 = RtpBugFlags::default();
    flags1.sonus_dtmf_timestamp = true;

    let mut flags2 = RtpBugFlags::default();
    flags2.never_send_marker = true;

    flags1.merge(&flags2);
    assert!(flags1.sonus_dtmf_timestamp);
    assert!(flags1.never_send_marker);
}

#[test]
fn test_dtmf_packet_to_rtp_bytes() {
    let packet = DtmfPacket {
        payload_type: 101,
        sequence: 0x1234,
        timestamp: 0xABCDEF00,
        ssrc: 0x12345678,
        marker: true,
        payload: [5, 0x8A, 0, 160],
    };

    let bytes = packet.to_rtp_bytes();

    assert_eq!(bytes[0], 0x80); // V=2
    assert_eq!(bytes[1], 0x80 | 101); // M=1, PT=101
    assert_eq!((bytes[2] as u16) << 8 | bytes[3] as u16, 0x1234); // seq
    assert_eq!(bytes[12], 5); // event
    assert_eq!(bytes[13], 0x8A); // end + volume
}

#[test]
fn test_dtmf_interdigit_overlap_same_timestamp() {
    // After an END packet, non-END packets at the same timestamp should
    // be suppressed (they are late arrivals for the already-completed digit).
    let mut detector = DtmfDetector::new();

    // Digit '5' with END at timestamp 1000
    let end_payload = [5, 0x8A, 0, 160]; // end=true
    let result = detector.process_rtp(101, 1, 1000, &end_payload, 0);
    assert!(result.is_some());

    // Non-END packet at the same timestamp — should be suppressed
    let late_payload = [5, 0x0A, 0, 200]; // end=false, same ts
    let result = detector.process_rtp(101, 2, 1000, &late_payload, 0);
    assert!(result.is_none());
}

#[test]
fn test_dtmf_interdigit_gap_too_short() {
    // A new digit arriving within 80ms (640 samples) after the last END
    // should be suppressed.
    let mut detector = DtmfDetector::new();

    // First digit END at timestamp 1000
    let end_payload = [5, 0x8A, 0, 160];
    let result = detector.process_rtp(101, 1, 1000, &end_payload, 0);
    assert!(result.is_some());

    // New digit at timestamp 1000 + 320 (only 40ms gap) — too close
    let new_digit = [6, 0x8A, 0, 160]; // end=true
    let result = detector.process_rtp(101, 2, 1320, &new_digit, 0);
    assert!(result.is_none(), "Digit within interdigit gap should be suppressed");
}

#[test]
fn test_dtmf_interdigit_gap_sufficient() {
    // A new digit arriving >= 80ms (640 samples) after the last END
    // should be accepted.
    let mut detector = DtmfDetector::new();

    // First digit END at timestamp 1000
    let end_payload = [5, 0x8A, 0, 160];
    let result = detector.process_rtp(101, 1, 1000, &end_payload, 0);
    assert!(result.is_some());

    // New digit at timestamp 1000 + 800 (100ms gap) — sufficient
    let new_digit = [6, 0x8A, 0, 160]; // end=true
    let result = detector.process_rtp(101, 2, 1800, &new_digit, 0);
    assert!(result.is_some(), "Digit beyond interdigit gap should be accepted");
    assert_eq!(result.unwrap().digit, '6');
}

#[test]
fn test_bug40_no_false_wraparound_on_reordering() {
    let mut detector = DtmfDetector::new();
    let ts = 5000u32;

    // Packet with duration=1000
    let p1 = [5, 0x0A, 0x03, 0xE8]; // duration=1000
    detector.process_rtp(101, 1, ts, &p1, 0);

    // Out-of-order packet arrives with duration=800 (slightly less, NOT wrap)
    let p2 = [5, 0x0A, 0x03, 0x20]; // duration=800
    detector.process_rtp(101, 2, ts, &p2, 0);

    // End packet with duration=1200
    let p3 = [5, 0x8A, 0x04, 0xB0]; // duration=1200, end=true
    let result = detector.process_rtp(101, 3, ts, &p3, 0);

    assert!(result.is_some());
    let detected = result.unwrap();
    assert_eq!(detected.digit, '5');
    // Duration should be 1200/8 = 150ms.
    // No wraparound accumulation should have happened.
    assert!(
        detected.duration_ms < 1000,
        "Should not have accumulated wraparound: got {}ms",
        detected.duration_ms
    );
}

#[test]
fn test_bug40_genuine_wraparound_still_detected() {
    // A genuine wraparound (duration goes from 0xFF00 to 0x0100) should
    // still be detected because 0x0100 < 0xFF00/2 and 0x0100 < 0x1000.
    let mut detector = DtmfDetector::new();
    let ts = 5000u32;

    // Duration approaching wrap
    let p1 = [5, 0x0A, 0xFF, 0x00]; // duration=0xFF00
    detector.process_rtp(101, 1, ts, &p1, 0);

    // Duration wraps around
    let p2 = [5, 0x0A, 0x01, 0x00]; // duration=0x0100 (after wrap)
    detector.process_rtp(101, 2, ts, &p2, 0);

    // End packet with wrapped duration
    let p3 = [5, 0x8A, 0x02, 0x00]; // duration=0x0200, end=true
    let result = detector.process_rtp(101, 3, ts, &p3, 0);

    assert!(result.is_some());
    let detected = result.unwrap();
    assert_eq!(detected.digit, '5');
    // Total should be 0x0200 + 0xFFFF = 0x101FF = 66047 samples
    // At 8kHz: 66047 / 8 = 8255ms
    assert!(
        detected.duration_ms > 8000,
        "Genuine wraparound should accumulate: got {}ms",
        detected.duration_ms
    );
}

#[test]
fn test_bug41_zero_duration_end_rejected() {
    // An END packet with duration=0 should be rejected (return None),
    // not accepted and reported as a digit.
    let mut detector = DtmfDetector::new();

    // END packet with duration=0
    let p1 = [5, 0x80, 0, 0]; // event=5, end=true, volume=0, duration=0
    let result = detector.process_rtp(101, 1, 1000, &p1, 0);
    assert!(
        result.is_none(),
        "END packet with zero accumulated duration should be rejected"
    );

    // Verify no digit was queued
    assert!(
        !detector.has_digits(),
        "Zero-duration END should not queue a digit"
    );
}

#[test]
fn test_bug41_nonzero_duration_end_still_works() {
    let mut detector = DtmfDetector::new();

    let p1 = [5, 0x0A, 0, 160]; // duration=160, no end
    detector.process_rtp(101, 1, 1000, &p1, 0);

    let p2 = [5, 0x8A, 1, 64]; // duration=320, end=true
    let result = detector.process_rtp(101, 2, 1000, &p2, 0);
    assert!(result.is_some(), "Normal END with duration > 0 should work");
    assert_eq!(result.unwrap().digit, '5');
}

#[test]
fn test_bug42_missing_end_timeout_force_completes() {
    // If END is permanently lost, the digit should be force-completed after
    // the timeout expires (measured via RTP timestamps).
    let mut detector = DtmfDetector::new();
    detector.set_end_timeout_ms(1000); // 1 second timeout for faster testing

    let start_ts: u32 = 10000;

    // First packet of digit '5'
    let p1 = [5, 0x0A, 0, 160]; // duration=160, no end
    let result = detector.process_rtp(101, 1, start_ts, &p1, 0);
    assert!(result.is_none());

    // More packets, still no END
    let p2 = [5, 0x0A, 1, 64]; // duration=320, no end
    let result = detector.process_rtp(101, 2, start_ts, &p2, 0);
    assert!(result.is_none());

    // Now a packet arrives much later (1.5 seconds later = 12000 samples at 8kHz).
    // This exceeds the 1000ms timeout (8000 samples).
    // This could be a completely different packet (e.g., audio), but we
    // simulate it as a new DTMF digit with a different timestamp.
    let late_ts = start_ts + 12000; // 1.5s later
    let p3 = [6, 0x0A, 0, 160]; // different digit, no end
    let result = detector.process_rtp(101, 3, late_ts, &p3, 0);

    // The old digit '5' should have been force-completed via timeout
    // The new packet for '6' starts a new digit (returns None)
    assert!(result.is_none(), "New digit packet itself returns None");

    // Check that '5' was force-completed and queued
    let queued = detector.pop_digit();
    assert!(
        queued.is_some(),
        "Timed-out digit '5' should have been force-completed and queued"
    );
    assert_eq!(queued.unwrap().digit, '5');
}

#[test]
fn test_bug42_no_premature_timeout() {
    // Packets arriving within the timeout should NOT trigger force-completion.
    let mut detector = DtmfDetector::new();
    detector.set_end_timeout_ms(5000); // 5 second timeout

    let start_ts: u32 = 10000;

    // First packet of digit '5'
    let p1 = [5, 0x0A, 0, 160];
    detector.process_rtp(101, 1, start_ts, &p1, 0);

    // Packet arrives 1 second later at the SAME digit timestamp (within timeout)
    // Note: in normal DTMF, all packets of one digit share the same RTP timestamp.
    // The timeout is checked by comparing incoming RTP timestamp vs first_packet_ts.
    // A packet with the same ts won't trigger timeout since elapsed=0.
    let p2 = [5, 0x0A, 0x1F, 0x40]; // duration=8000 (1s)
    let result = detector.process_rtp(101, 2, start_ts, &p2, 0);
    assert!(result.is_none(), "Should not timeout within window");

    // No force-completion should have happened
    assert!(!detector.has_digits(), "No premature timeout should occur");

    // Normal END arrives
    let p3 = [5, 0x8A, 0x1F, 0x40]; // duration=8000, end=true
    let result = detector.process_rtp(101, 3, start_ts, &p3, 0);
    assert!(result.is_some(), "Normal END should still work");
    assert_eq!(result.unwrap().digit, '5');
}

#[test]
fn test_bug43_dynamic_pt_latching() {
    // When expected_pt=0, the first DTMF packet's PT should be latched.
    // Subsequent packets with a different PT should be rejected.
    let mut detector = DtmfDetector::with_payload_type(0);

    // First packet with PT=96 — should be accepted and latch PT=96
    let p1 = [5, 0x8A, 0, 160]; // end=true, duration=160
    let result = detector.process_rtp(96, 1, 1000, &p1, 0);
    assert!(result.is_some(), "First dynamic PT packet should be accepted");
    assert_eq!(result.unwrap().digit, '5');

    // Second packet with PT=100 — should be rejected (PT latched to 96)
    let p2 = [6, 0x8A, 0, 160]; // end=true
    let result = detector.process_rtp(100, 2, 2000, &p2, 0);
    assert!(
        result.is_none(),
        "Packet with different PT than latched should be rejected"
    );

    // Third packet with PT=96 — should be accepted (matches latched PT)
    let p3 = [7, 0x8A, 0, 160]; // end=true
    let result = detector.process_rtp(96, 3, 3000, &p3, 0);
    assert!(result.is_some(), "Packet with latched PT should be accepted");
    assert_eq!(result.unwrap().digit, '7');
}

#[test]
fn test_bug43_set_expected_pt_overrides() {
    let mut detector = DtmfDetector::with_payload_type(0);

    // Explicitly set PT from SDP
    detector.set_expected_pt(110);

    // Packet with PT=110 — should be accepted
    let p1 = [5, 0x8A, 0, 160];
    let result = detector.process_rtp(110, 1, 1000, &p1, 0);
    assert!(result.is_some(), "Packet matching set_expected_pt should be accepted");

    // Packet with PT=96 — should be rejected
    let p2 = [6, 0x8A, 0, 160];
    let result = detector.process_rtp(96, 2, 2000, &p2, 0);
    assert!(
        result.is_none(),
        "Packet not matching set_expected_pt should be rejected"
    );
}

#[test]
fn test_bug43_non_dynamic_pt_still_rejected() {
    // Even with expected_pt=0, non-dynamic PTs (< 96 or > 127) should
    // still be rejected before latching.
    let mut detector = DtmfDetector::with_payload_type(0);

    let p1 = [5, 0x8A, 0, 160];
    let result = detector.process_rtp(50, 1, 1000, &p1, 0);
    assert!(result.is_none(), "Non-dynamic PT should be rejected");

    let result = detector.process_rtp(128, 2, 2000, &p1, 0);
    assert!(result.is_none(), "PT > 127 should be rejected");
}

#[test]
fn test_bug43_latched_pt_survives_reset() {
    // Latched PT should persist across reset() calls because the PT
    // negotiated via SDP doesn't change mid-call.
    let mut detector = DtmfDetector::with_payload_type(0);

    // Latch PT=96
    let p1 = [5, 0x8A, 0, 160];
    detector.process_rtp(96, 1, 1000, &p1, 0);

    // Reset detector state (e.g., due to stuck stream)
    detector.reset();

    // PT=96 should still be accepted
    let p2 = [6, 0x8A, 0, 160];
    let result = detector.process_rtp(96, 2, 3000, &p2, 0);
    assert!(result.is_some(), "Latched PT should survive reset");

    // PT=100 should still be rejected
    let p3 = [7, 0x8A, 0, 160];
    let result = detector.process_rtp(100, 3, 4000, &p3, 0);
    assert!(result.is_none(), "Non-latched PT should still be rejected after reset");
}

#[test]
fn test_bug10_continue_digit_returns_none_after_complete() {
    // After a digit is complete (sofar >= total), continue_digit() must
    // return None and must NOT increment out_digit_sofar any further.
    let mut sender = DtmfSender::new(0x12345678);
    let mut seq: u16 = 0;

    // Start a 60ms digit (= 480 timestamp units at 8kHz)
    sender.start_digit('5', 60, &mut seq, 48000, 20).unwrap();

    // Call continue_digit with 20ms intervals until the digit completes.
    // 60ms / 20ms = 3 intervals needed to reach completion.
    let mut packets = Vec::new();
    for _ in 0..3 {
        if let Some(pkt) = sender.continue_digit(20, &mut seq) {
            packets.push(pkt);
        }
    }

    // Digit should now be complete
    assert!(sender.is_complete(), "Digit should be complete after 3 intervals");

    // Further calls to continue_digit must return None
    for i in 0..100 {
        assert!(
            sender.continue_digit(20, &mut seq).is_none(),
            "continue_digit should return None after completion (call #{})",
            i
        );
    }

    let sofar = sender.out_digit_sofar;
    let total = sender.out_digit_dur;
    assert!(
        sofar <= total + 160, // Allow at most one interval overshoot from the completing call
        "out_digit_sofar should not grow unboundedly: sofar={}, total={}",
        sofar,
        total
    );
}

#[test]
fn test_bug10_sofar_does_not_increment_after_completion() {
    // Targeted test: verify the exact value of out_digit_sofar stays stable
    // after the digit is done.
    let mut sender = DtmfSender::new(0xDEADBEEF);
    let mut seq: u16 = 0;

    // Start a 40ms digit (= 320 timestamp units)
    sender.start_digit('1', 40, &mut seq, 48000, 20).unwrap();

    // Two 20ms intervals => sofar reaches 320 (== total), digit complete
    sender.continue_digit(20, &mut seq);
    sender.continue_digit(20, &mut seq);
    assert!(sender.is_complete());

    let sofar_after_complete = sender.out_digit_sofar;

    // Call continue_digit many more times
    for _ in 0..500 {
        let result = sender.continue_digit(20, &mut seq);
        assert!(result.is_none(), "Must return None after completion");
    }

    let sofar_after_extra_calls = sender.out_digit_sofar;
    assert_eq!(
        sofar_after_complete, sofar_after_extra_calls,
        "out_digit_sofar must not change after digit is complete"
    );
}

#[test]
fn every_event_goes_both_ways() {
    for code in 0..16u8 {
        let e = DtmfEvent::from_code(code).unwrap();
        assert_eq!(e.code(), code);
        assert_eq!(DtmfEvent::from_char(e.to_char()), Some(e));
    }
    assert!(DtmfEvent::from_code(16).is_none());
}

#[test]
fn a_letter_that_is_no_digit_is_refused() {
    let mut sender = DtmfSender::new(1);
    let mut seq: u16 = 7;
    let e = sender.generate_digit('x', 100, 20, &mut seq, 0).unwrap_err();
    assert_eq!(e.message(), "RTP error: Invalid DTMF digit: x");
    assert_eq!(seq, 7);
    assert!(sender.generate_digit('x', u32::MAX, 0, &mut seq, 0).is_err());
}

#[test]
fn the_longest_digits_can_be_counted() {
    assert!(DtmfSender::can_count(100, 20));
    assert!(DtmfSender::can_count(0, 20));
    assert!(DtmfSender::can_count(0x1FFF_FFF0, 2));
    assert!(!DtmfSender::can_count(100, 0));
    assert!(!DtmfSender::can_count(0x2000_0000, 20));
    assert!(!DtmfSender::can_count(u32::MAX, 2));
    assert!(DtmfSender::can_count(4_000_000_000, 10_000));

    let mut sender = DtmfSender::new(1);
    let mut seq: u16 = 0;
    let packets = sender.generate_digit('5', 4_000_000_000, 10_000, &mut seq, 0).unwrap();
    assert_eq!(packets.len(), 1 + 65_535 + 3);
}

#[test]
fn a_sent_digit_is_detected_once() {
    let mut sender = DtmfSender::with_payload_type(9, 97);
    assert_eq!(sender.payload_type(), 97);
    let mut detector = DtmfDetector::with_payload_type(97);
    let mut seq: u16 = 500;
    let mut found: Vec<char> = Vec::new();
    for p in sender.generate_digit('#', 160, 20, &mut seq, 16000).unwrap() {
        if let Some(d) = detector.process_rtp(p.payload_type, p.sequence, p.timestamp, &p.payload, 0)
        {
            found.push(d.digit);
        }
    }
    assert_eq!(found, vec!['#']);
}

#[test]
fn a_payload_tells_its_digit() {
    let payload = DtmfPayload::parse(&[11, 0x80, 0, 160]).unwrap();
    assert_eq!(payload.to_char(), Some('#'));
}

#[test]
fn the_wire_form_of_a_digit_is_exact() {
    let packet = DtmfPacket {
        payload_type: 101,
        sequence: 0x0102,
        timestamp: 0x03040506,
        ssrc: 0x0708090A,
        marker: false,
        payload: [1, 0x8A, 3, 32],
    };
    assert_eq!(
        packet.to_rtp_bytes(),
        vec![0x80, 101, 1, 2, 3, 4, 5, 6, 7, 8, 9, 10, 1, 0x8A, 3, 32]
    );
}
