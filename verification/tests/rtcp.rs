//! Control packets and sessions.

use rtpsip::rtp::jitter::JitterStep;
use rtpsip::rtp::rtcp::{
    build_bye, build_compound_rr, build_compound_sr, build_receiver_report, build_sdes_cname,
    build_sender_report, build_xr_voip_metrics, parse_rtcp_compound, NtpTimestamp, QualityScores,
    ReportBlock, RtcpPacket, RtcpSession, VoipMetrics, PT_SR, PT_XR,
};

const SECOND: u64 = 1_000_000_000;

fn session() -> RtcpSession {
    RtcpSession::new(0x11111111, "test@host".to_string(), 5 * SECOND, 10 * SECOND)
}

fn scores() -> QualityScores {
    QualityScores { loss_rate: 3, round_trip_ms: 45, r_factor: 85, mos: 42 }
}

#[test]
fn test_ntp_timestamp_compact() {
    let ntp = NtpTimestamp {
        seconds: 0x12345678,
        fraction: 0xABCDEF00,
    };
    // Compact = (seconds & 0xFFFF) << 16 | (fraction >> 16)
    assert_eq!(ntp.compact(), 0x5678ABCD);
}

#[test]
fn test_ntp_timestamp_roundtrip() {
    let ntp = NtpTimestamp { seconds: 12345, fraction: 67890 };
    let mut buf = [0u8; 8];
    ntp.write_to(&mut buf);
    let parsed = NtpTimestamp::parse(&buf);
    assert_eq!(parsed.seconds, ntp.seconds);
    assert_eq!(parsed.fraction, ntp.fraction);
}

#[test]
fn test_report_block_roundtrip() {
    let rb = ReportBlock {
        ssrc: 0x12345678,
        fraction_lost: 25,
        cumulative_lost: 100,
        extended_highest_seq: 50000,
        jitter: 320,
        last_sr: 0xAABBCCDD,
        delay_since_last_sr: 65536, // 1 second
    };
    let mut buf = [0u8; 24];
    rb.write_to(&mut buf);
    let parsed = ReportBlock::parse(&buf);

    assert_eq!(parsed.ssrc, rb.ssrc);
    assert_eq!(parsed.fraction_lost, rb.fraction_lost);
    assert_eq!(parsed.cumulative_lost, rb.cumulative_lost);
    assert_eq!(parsed.extended_highest_seq, rb.extended_highest_seq);
    assert_eq!(parsed.jitter, rb.jitter);
    assert_eq!(parsed.last_sr, rb.last_sr);
    assert_eq!(parsed.delay_since_last_sr, rb.delay_since_last_sr);
}

#[test]
fn test_report_block_negative_loss() {
    let rb = ReportBlock {
        cumulative_lost: -5, // More received than expected (duplicates)
        ..Default::default()
    };
    let mut buf = [0u8; 24];
    rb.write_to(&mut buf);
    let parsed = ReportBlock::parse(&buf);
    assert_eq!(parsed.cumulative_lost, -5);
}

#[test]
fn test_build_parse_sender_report() {
    let mut buf = [0u8; 256];
    let ntp = NtpTimestamp { seconds: 100, fraction: 200 };
    let rb = ReportBlock {
        ssrc: 0xAABBCCDD,
        fraction_lost: 10,
        cumulative_lost: 5,
        extended_highest_seq: 1000,
        jitter: 160,
        last_sr: 0x11223344,
        delay_since_last_sr: 32768,
    };
    let len = build_sender_report(&mut buf, 0x12345678, ntp, 16000, 100, 16000, &[rb]);

    assert_eq!(len, 28 + 24); // header + sender info + 1 report block

    let packets = parse_rtcp_compound(&buf[..len]);
    assert_eq!(packets.len(), 1);
    if let RtcpPacket::SenderReport(sr) = &packets[0] {
        assert_eq!(sr.ssrc, 0x12345678);
        assert_eq!(sr.ntp_timestamp.seconds, 100);
        assert_eq!(sr.rtp_timestamp, 16000);
        assert_eq!(sr.packet_count, 100);
        assert_eq!(sr.octet_count, 16000);
        assert_eq!(sr.report_blocks.len(), 1);
        assert_eq!(sr.report_blocks[0].ssrc, 0xAABBCCDD);
        assert_eq!(sr.report_blocks[0].fraction_lost, 10);
    } else {
        panic!("Expected SenderReport");
    }
}

#[test]
fn test_build_parse_receiver_report() {
    let mut buf = [0u8; 256];
    let len = build_receiver_report(&mut buf, 0x11111111, &[]);

    let packets = parse_rtcp_compound(&buf[..len]);
    assert_eq!(packets.len(), 1);
    if let RtcpPacket::ReceiverReport(rr) = &packets[0] {
        assert_eq!(rr.ssrc, 0x11111111);
        assert_eq!(rr.report_blocks.len(), 0);
    } else {
        panic!("Expected ReceiverReport");
    }
}

#[test]
fn test_build_parse_sdes() {
    let mut buf = [0u8; 256];
    let len = build_sdes_cname(&mut buf, 0x12345678, "user@host.example.com");

    let packets = parse_rtcp_compound(&buf[..len]);
    assert_eq!(packets.len(), 1);
    if let RtcpPacket::SourceDescription(sdes) = &packets[0] {
        assert_eq!(sdes.chunks.len(), 1);
        assert_eq!(sdes.chunks[0].ssrc, 0x12345678);
        assert_eq!(sdes.chunks[0].cname.as_deref(), Some("user@host.example.com"));
    } else {
        panic!("Expected SourceDescription");
    }
}

#[test]
fn test_build_parse_bye() {
    let mut buf = [0u8; 256];
    let len = build_bye(&mut buf, &[0x12345678, 0xAABBCCDD], Some("session ended"));

    let packets = parse_rtcp_compound(&buf[..len]);
    assert_eq!(packets.len(), 1);
    if let RtcpPacket::Goodbye(bye) = &packets[0] {
        assert_eq!(bye.sources, vec![0x12345678, 0xAABBCCDD]);
        assert_eq!(bye.reason.as_deref(), Some("session ended"));
    } else {
        panic!("Expected Goodbye");
    }
}

#[test]
fn test_compound_sr_sdes() {
    let mut buf = [0u8; 256];
    let ntp = NtpTimestamp::now();
    let len = build_compound_sr(&mut buf, 0x12345678, ntp, 16000, 100, 16000, &[], "test@host");

    let packets = parse_rtcp_compound(&buf[..len]);
    assert_eq!(packets.len(), 2);
    assert!(matches!(&packets[0], RtcpPacket::SenderReport(_)));
    assert!(matches!(&packets[1], RtcpPacket::SourceDescription(_)));
}

#[test]
fn test_parse_empty_input() {
    // parse_rtcp_compound must handle empty input without panic
    let packets = parse_rtcp_compound(&[]);
    assert!(packets.is_empty());
}

#[test]
fn test_parse_truncated_packet() {
    // 3 bytes is too short to even read the RTCP header (need 4)
    let packets = parse_rtcp_compound(&[0x80, 0xC8, 0x00]);
    assert!(packets.is_empty());
}

#[test]
fn test_parse_malformed_length_exceeds_data() {
    // Version 2, PT=200 (SR), but length field says 100 words (400 bytes)
    // while we only provide 8 bytes total. Should not panic.
    let mut buf = [0u8; 8];
    buf[0] = 0x80; // V=2, P=0, RC=0
    buf[1] = PT_SR;
    buf[2..4].copy_from_slice(&100u16.to_be_bytes()); // bogus length
    buf[4..8].copy_from_slice(&0x12345678u32.to_be_bytes());
    let packets = parse_rtcp_compound(&buf);
    assert!(packets.is_empty(), "Should skip packet with length exceeding data");
}

#[test]
fn test_parse_wrong_version_stops_parsing() {
    // Version 3 (invalid) should cause parser to stop
    let mut buf = [0u8; 8];
    buf[0] = 0xC0; // V=3
    buf[1] = PT_SR;
    buf[2..4].copy_from_slice(&1u16.to_be_bytes());
    let packets = parse_rtcp_compound(&buf);
    assert!(packets.is_empty());
}

#[test]
fn test_xr_voip_metrics_roundtrip() {
    let metrics = VoipMetrics {
        loss_rate: 25,
        discard_rate: 3,
        burst_density: 10,
        gap_density: 200,
        burst_duration: 500,
        gap_duration: 2000,
        round_trip_delay: 45,
        end_system_delay: 20,
        signal_level: 80,
        noise_level: 40,
        rerl: 12,
        gmin: 16,
        r_factor: 85,
        ext_r_factor: 127,
        mos_lq: 42,
        mos_cq: 41,
        rx_config: 0,
        jb_nominal: 30,
        jb_maximum: 60,
        jb_abs_max: 1000,
    };

    let mut buf = [0u8; 48];
    let len = build_xr_voip_metrics(&mut buf, 0x11111111, 0x22222222, &metrics);
    assert_eq!(len, 44);

    // Verify the XR header
    assert_eq!(buf[1], PT_XR); // packet type 207
    // Verify sender SSRC
    assert_eq!(
        u32::from_be_bytes([buf[4], buf[5], buf[6], buf[7]]),
        0x11111111
    );
    // Verify block type
    assert_eq!(buf[8], VoipMetrics::BLOCK_TYPE); // BT=7
    // Verify source SSRC
    assert_eq!(
        u32::from_be_bytes([buf[12], buf[13], buf[14], buf[15]]),
        0x22222222
    );

    // Parse the metrics back from the body (starts at offset 16)
    let parsed = VoipMetrics::parse(&buf[16..44]).unwrap();
    assert_eq!(parsed.loss_rate, 25);
    assert_eq!(parsed.round_trip_delay, 45);
    assert_eq!(parsed.r_factor, 85);
    assert_eq!(parsed.mos_lq, 42);
    assert_eq!(parsed.jb_abs_max, 1000);
}

#[test]
fn test_receiver_report_no_blocks() {
    // RR with zero report blocks (receiver hasn't gotten any RTP yet)
    let mut buf = [0u8; 64];
    let len = build_receiver_report(&mut buf, 0xAAAAAAAA, &[]);
    assert_eq!(len, 8); // just header + SSRC

    let packets = parse_rtcp_compound(&buf[..len]);
    assert_eq!(packets.len(), 1);
    if let RtcpPacket::ReceiverReport(rr) = &packets[0] {
        assert_eq!(rr.ssrc, 0xAAAAAAAA);
        assert!(rr.report_blocks.is_empty());
    } else {
        panic!("Expected ReceiverReport");
    }
}

#[test]
fn test_rtcp_session_jitter_tracking() {
    let mut session = session();
    let mut jitter = 0.0f64;

    // packets of 20 ms, one each millisecond
    for i in 0..10u16 {
        let step = session.record_rtp_received(0x22222222, i, i as u32 * 160, i as u64 * 1_000_000);
        if let JitterStep::Deviation(d) = step {
            jitter += (d as f64 - jitter) / 16.0;
        }
    }

    assert_eq!(session.packets_received, 10);
    assert_eq!(session.remote_ssrc, Some(0x22222222));
    assert!(session.first_packet_received);
    let jitter_ms = jitter * 1000.0 / session.clock_rate as f64;
    assert!(jitter_ms < 100.0, "jitter_ms={}", jitter_ms);
}

#[test]
fn test_rtcp_session_loss_tracking() {
    let mut session = session();

    // Receive packets with gaps (skip seq 2 and 5)
    for seq in [0u16, 1, 3, 4, 6, 7, 8, 9] {
        session.record_rtp_received(0x22222222, seq, seq as u32 * 160, 0);
    }

    // Expected: 10 (seq 0-9), received: 8, lost: 2
    assert_eq!(session.packets_received, 8);
    assert_eq!(session.expected_packets, 10);
    let lost = session.expected_packets - session.packets_received;
    let loss_percent = lost as f64 * 100.0 / session.expected_packets as f64;
    assert!((loss_percent - 20.0).abs() < 0.1);
}

#[test]
fn test_rtcp_session_build_rtcp() {
    let mut session = session();

    // Record some sent packets
    session.record_rtp_sent(160, 0);
    session.record_rtp_sent(160, 160);

    // Record some received packets
    session.record_rtp_received(0x22222222, 0, 0, 0);
    session.record_rtp_received(0x22222222, 1, 160, 20_000_000);

    // Build RTCP
    let mut buf = [0u8; 512];
    let ntp = NtpTimestamp { seconds: 7, fraction: 8 };
    let len = session.build_rtcp(&mut buf, 17, scores(), 5 * SECOND, 30_000_000, ntp);
    assert!(len > 0);

    // Parse it back
    let packets = parse_rtcp_compound(&buf[..len]);
    assert_eq!(packets.len(), 3); // SR + SDES + XR
    assert!(matches!(&packets[0], RtcpPacket::SenderReport(_)));
    assert!(matches!(&packets[1], RtcpPacket::SourceDescription(_)));
    assert!(matches!(&packets[2], RtcpPacket::ExtendedReport(_)));

    if let RtcpPacket::SenderReport(sr) = &packets[0] {
        assert_eq!(sr.ssrc, 0x11111111);
        assert_eq!(sr.packet_count, 2);
        assert_eq!(sr.octet_count, 320);
        assert_eq!(sr.report_blocks.len(), 1);
        assert_eq!(sr.report_blocks[0].ssrc, 0x22222222);
        assert_eq!(sr.report_blocks[0].jitter, 17);
        assert_eq!(sr.ntp_timestamp.seconds, 7);
    }
}

#[test]
fn test_sequence_wraparound_tracking() {
    let mut session = session();

    // Start near wraparound
    session.record_rtp_received(0x22222222, 65534, 0, 0);
    session.record_rtp_received(0x22222222, 65535, 160, 0);
    session.record_rtp_received(0x22222222, 0, 320, 0);     // wraparound
    session.record_rtp_received(0x22222222, 1, 480, 0);

    assert_eq!(session.packets_received, 4);
    assert_eq!(session.seq_cycles, 1); // One wraparound detected
    assert_eq!(session.highest_seq, 1);
}

#[test]
fn an_arrival_off_by_five_milliseconds_deviates_by_forty_units() {
    let mut session = session();
    assert_eq!(session.record_rtp_received(2, 10, 0, 0), JitterStep::Unchanged);
    assert_eq!(session.record_rtp_received(2, 11, 160, 25_000_000), JitterStep::Deviation(40));
}

#[test]
fn a_receiver_that_sends_nothing_reports_as_receiver() {
    let mut session = session();
    session.record_rtp_received(0x22222222, 5, 0, 0);
    let mut buf = [0u8; 512];
    let ntp = NtpTimestamp { seconds: 1, fraction: 2 };
    let len = session.build_rtcp(&mut buf, 0, scores(), SECOND, SECOND, ntp);
    let packets = parse_rtcp_compound(&buf[..len]);
    assert!(matches!(&packets[0], RtcpPacket::ReceiverReport(_)));
    assert!(!session.should_send_rtcp(SECOND + SECOND / 2));
    assert!(session.should_send_rtcp(3 * SECOND));
}

#[test]
fn a_sender_report_is_answered_with_its_age() {
    let mut session = session();
    session.record_rtp_received(0x22222222, 5, 0, 0);
    let mut buf = [0u8; 256];
    let ntp = NtpTimestamp { seconds: 0x12345678, fraction: 0xABCDEF00 };
    let len = build_sender_report(&mut buf, 0x22222222, ntp, 0, 1, 1, &[]);
    let events = session.process_incoming_rtcp(&buf[..len], SECOND, ntp);
    assert!(!events.collision);
    assert!(events.rtt_samples.is_empty());
    let mut out = [0u8; 512];
    let len = session.build_rtcp(&mut out, 0, scores(), SECOND, 2 * SECOND, ntp);
    if let RtcpPacket::ReceiverReport(rr) = &parse_rtcp_compound(&out[..len])[0] {
        assert_eq!(rr.report_blocks[0].last_sr, 0x5678ABCD);
        assert_eq!(rr.report_blocks[0].delay_since_last_sr, 65536);
    } else {
        panic!("Expected ReceiverReport");
    }
}

#[test]
fn a_report_in_our_own_name_is_a_collision() {
    let mut session = session();
    let mut buf = [0u8; 64];
    let len = build_receiver_report(&mut buf, 0x11111111, &[]);
    let ntp = NtpTimestamp { seconds: 1, fraction: 2 };
    assert!(session.process_incoming_rtcp(&buf[..len], 0, ntp).collision);
}

#[test]
fn a_compound_of_a_receiver_reads_back() {
    let mut buf = [0u8; 256];
    let rb = ReportBlock { ssrc: 9, fraction_lost: 1, ..Default::default() };
    let len = build_compound_rr(&mut buf, 0x01020304, &[rb], "me@here");
    let packets = parse_rtcp_compound(&buf[..len]);
    assert_eq!(packets.len(), 2);
    assert!(matches!(&packets[0], RtcpPacket::ReceiverReport(rr) if rr.report_blocks.len() == 1));
    assert!(matches!(&packets[1], RtcpPacket::SourceDescription(_)));
}

#[test]
fn a_goodbye_and_metrics_of_a_session_read_back() {
    let mut session = session();
    session.record_rtp_received(0x22222222, 5, 0, 0);
    let mut buf = [0u8; 128];
    let len = session.build_bye(&mut buf, Some("done"));
    assert!(matches!(&parse_rtcp_compound(&buf[..len])[0], RtcpPacket::Goodbye(b)
        if b.sources == vec![0x11111111] && b.reason.as_deref() == Some("done")));
    let len = session.build_xr(&mut buf, scores());
    assert_eq!(len, 44);
    let metrics = VoipMetrics::parse(&buf[16..44]).unwrap();
    assert_eq!(metrics.round_trip_delay, 45);
    assert_eq!(metrics.r_factor, 85);
    assert_eq!(metrics.mos_lq, 42);
    assert_eq!(metrics.loss_rate, 3);
}

#[test]
fn a_new_source_starts_the_counts_over() {
    let mut session = session();
    session.record_rtp_received(0x22222222, 5, 0, 0);
    session.record_rtp_received(0x22222222, 6, 160, 20_000_000);
    session.reset_receiver(0x33333333);
    assert_eq!(session.packets_received, 0);
    assert_eq!(session.remote_ssrc, Some(0x33333333));
    assert!(!session.first_packet_received);
}

#[test]
fn the_time_now_is_after_1970() {
    assert!(NtpTimestamp::now().seconds > 2_208_988_800);
    let epoch = NtpTimestamp::from_unix(0, 0);
    assert_eq!((epoch.seconds, epoch.fraction), (2_208_988_800, 0));
}
