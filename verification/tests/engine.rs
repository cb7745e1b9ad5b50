//! The media engine.

use rtpsip::rtp::dtmf::RtpBugFlags;
use rtpsip::rtp::engine::{
    allocate_rtp_port, can_carry, is_rtcp_packet, PortPool, Reception, ReceptionKind, TimestampNormalizer,
};
use rtpsip::rtp::{parse_rtp_packet, CodecType, JitterConfig, RtpEngine, RtpEngineConfig};

const MS: u64 = 1_000_000;

fn engine_of(ssrc: u32) -> RtpEngine {
    RtpEngine::new(RtpEngineConfig { ssrc: Some(ssrc), ..Default::default() })
}

fn kind(r: &Reception) -> &'static str {
    match r.kind {
        ReceptionKind::Dropped => "dropped",
        ReceptionKind::Control => "control",
        ReceptionKind::OwnSource => "own source",
        ReceptionKind::Digit(_) => "digit",
        ReceptionKind::WrongType { .. } => "wrong type",
        ReceptionKind::ComfortNoise => "comfort noise",
        ReceptionKind::Duplicate => "duplicate",
        ReceptionKind::Audio(_) => "audio",
    }
}

#[test]
fn test_is_rtcp_packet_identifies_all_rtcp_types() {
    // RTCP payload types: SR=200, RR=201, SDES=202, BYE=203, APP=204, XR=207
    let rtcp_pts: Vec<u8> = vec![200, 201, 202, 203, 204, 207];
    for pt in &rtcp_pts {
        // Minimal 12-byte RTCP-like packet: version=2, padding=0, RC=0, PT=<pt>
        let mut pkt = vec![0x80, *pt, 0x00, 0x00, 0x00, 0x00, 0x00, 0x00,
                           0x00, 0x00, 0x00, 0x00];
        assert!(
            is_rtcp_packet(&pkt),
            "RTCP PT {} should be identified as RTCP",
            pt
        );
        // Also verify with padding bit set (byte 0 = 0xA0)
        pkt[0] = 0xA0;
        assert!(
            is_rtcp_packet(&pkt),
            "RTCP PT {} with padding should still be identified as RTCP",
            pt
        );
    }
}

#[test]
fn test_is_rtcp_packet_rejects_rtp() {
    // Common RTP payload types should NOT be identified as RTCP
    let rtp_pts: Vec<u8> = vec![0, 8, 9, 96, 111, 127];
    for pt in &rtp_pts {
        // RTP packet with marker=0, PT=<pt>
        let pkt = vec![0x80, *pt, 0x00, 0x01, 0x00, 0x00, 0x00, 0xA0,
                       0x00, 0x00, 0x00, 0x01];
        assert!(
            !is_rtcp_packet(&pkt),
            "RTP PT {} should NOT be identified as RTCP",
            pt
        );
    }
}

#[test]
fn test_is_rtcp_packet_rejects_short_data() {
    assert!(!is_rtcp_packet(&[]));
    assert!(!is_rtcp_packet(&[0x80]));
}

#[test]
fn test_is_rtcp_packet_accepts_rtcpfb_types() {
    for pt in [205u8, 206] {
        let pkt = vec![0x80, pt, 0x00, 0x00, 0x00, 0x00, 0x00, 0x00,
                       0x00, 0x00, 0x00, 0x00];
        assert!(
            is_rtcp_packet(&pkt),
            "PT {} is valid RTCP (feedback)",
            pt
        );
    }
}

#[test]
fn test_timestamp_normalizer_basic() {
    let mut norm = TimestampNormalizer::new(8000);

    // First packet establishes baseline — normalized output is predictable
    let n1 = norm.normalize(50000);
    // Second packet is one ptime later (160 samples = 20ms at 8kHz)
    let n2 = norm.normalize(50160);
    assert_eq!(n2.wrapping_sub(n1), 160, "Sequential packets must differ by exactly 160");
}

#[test]
fn test_timestamp_normalizer_discontinuity_resets() {
    let mut norm = TimestampNormalizer::new(8000);

    // Establish baseline with a few packets
    let n1 = norm.normalize(1000);
    let n2 = norm.normalize(1160);
    assert_eq!(n2.wrapping_sub(n1), 160);

    // Simulate call transfer: remote timestamps jump by 10 seconds
    let jump_ts = 1160 + 80_000; // 10 seconds at 8kHz
    let n3 = norm.normalize(jump_ts);

    // After reset, the normalizer should place n3 right after n2
    // (n2 + one ptime = n2 + 160 for the assumed 20ms gap)
    assert_eq!(n3.wrapping_sub(n2), 160,
        "After discontinuity, normalizer must re-anchor seamlessly");

    // Further packets should continue smoothly from the new base
    let n4 = norm.normalize(jump_ts + 160);
    assert_eq!(n4.wrapping_sub(n3), 160);
}

#[test]
fn test_timestamp_normalizer_reset_method() {
    let mut norm = TimestampNormalizer::new(8000);

    norm.normalize(5000);
    norm.normalize(5160);
    norm.reset();

    // After reset, next packet should re-establish the mapping
    // (remote_base_ts is None again).
    let n = norm.normalize(90000);
    // Just verify it doesn't panic and returns a value
    let _ = n;

    // Next sequential packet should still be smooth
    let n2 = norm.normalize(90160);
    assert_eq!(n2.wrapping_sub(n), 160);
}

#[test]
fn test_port_allocate_and_release() {
    let mut pool = PortPool::new();
    let start: u16 = 40000;
    let end: u16 = 40002; // range has exactly one even port: 40000

    let port = allocate_rtp_port(&mut pool, start, end);
    assert_eq!(port, Some(start), "Should allocate the only available even port");

    // Pool is exhausted — next allocation must fail
    let port2 = allocate_rtp_port(&mut pool, start, end);
    assert!(port2.is_none(), "Pool should be exhausted");

    // Release and re-allocate
    pool.release_rtp_port(port.unwrap());
    let port3 = allocate_rtp_port(&mut pool, start, end);
    assert_eq!(port3, Some(start), "Released port should be re-allocatable");

    // Clean up
    pool.release_rtp_port(port3.unwrap());
}

#[test]
fn test_port_allocation_returns_even() {
    let mut pool = PortPool::new();
    let start: u16 = 40010;
    let end: u16 = 40020;

    let mut allocated = Vec::new();
    for _ in 0..5 {
        if let Some(p) = allocate_rtp_port(&mut pool, start, end) {
            assert_eq!(p % 2, 0, "RTP ports must be even");
            allocated.push(p);
        }
    }

    // Clean up
    for p in allocated {
        pool.release_rtp_port(p);
    }
}

#[test]
fn test_timestamp_normalizer_with_ptime_30ms() {
    let mut norm = TimestampNormalizer::with_ptime(8000, 30);

    let n1 = norm.normalize(1000);
    let n2 = norm.normalize(1240); // 30ms at 8kHz = 240 samples
    assert_eq!(n2.wrapping_sub(n1), 240);

    // Simulate a large discontinuity (>5 sec)
    let jump_ts = 1240 + 80_000;
    let n3 = norm.normalize(jump_ts);

    // After discontinuity, the gap should be one ptime (240 samples for 30ms)
    assert_eq!(n3.wrapping_sub(n2), 240,
        "discontinuity recovery should use 30ms ptime (240 samples), not 20ms (160)");

    // Continue normally
    let n4 = norm.normalize(jump_ts + 240);
    assert_eq!(n4.wrapping_sub(n3), 240);
}

#[test]
fn test_timestamp_normalizer_with_ptime_10ms() {
    let mut norm = TimestampNormalizer::with_ptime(8000, 10);

    let n1 = norm.normalize(2000);
    let n2 = norm.normalize(2080); // 10ms = 80 samples
    assert_eq!(n2.wrapping_sub(n1), 80);

    // Large jump
    let jump_ts = 2080 + 80_000;
    let n3 = norm.normalize(jump_ts);
    assert_eq!(n3.wrapping_sub(n2), 80,
        "discontinuity recovery should use 10ms ptime (80 samples)");
}

#[test]
fn test_timestamp_normalizer_set_ptime_mid_stream() {
    let mut norm = TimestampNormalizer::with_ptime(8000, 20);

    let n1 = norm.normalize(1000);
    let n2 = norm.normalize(1160);
    assert_eq!(n2.wrapping_sub(n1), 160);

    // Change ptime to 30ms
    norm.set_ptime(30);

    // Next discontinuity should use 30ms step (240 samples)
    let jump_ts = 1160 + 80_000;
    let n3 = norm.normalize(jump_ts);
    assert_eq!(n3.wrapping_sub(n2), 240,
        "After set_ptime(30), discontinuity recovery should use 240 samples");
}

#[test]
fn test_rtp_dtmf_config() {
    // Test with DTMF enabled (default)
    let engine = RtpEngine::with_defaults();
    assert!(engine.is_dtmf_enabled());
    assert_eq!(engine.dtmf_payload_type(), 101);

    // Test with DTMF disabled
    let config = RtpEngineConfig {
        enable_dtmf: false,
        dtmf_payload_type: 96,
        ..Default::default()
    };
    let engine2 = RtpEngine::new(config);
    assert!(!engine2.is_dtmf_enabled());
    assert_eq!(engine2.dtmf_payload_type(), 96);
}

#[test]
fn test_rtcp_mux_toggle() {
    let mut engine = RtpEngine::with_defaults();

    assert!(!engine.is_rtcp_mux_enabled());
    engine.enable_rtcp_mux(true);
    assert!(engine.is_rtcp_mux_enabled());
    engine.enable_rtcp_mux(false);
    assert!(!engine.is_rtcp_mux_enabled());
}

#[test]
fn packets_within_the_address_space_can_be_sent() {
    assert!(can_carry(160));
    assert!(can_carry(isize::MAX as usize / 2));
    assert!(!can_carry(isize::MAX as usize));
}

#[test]
fn what_is_not_parsed_needs_no_extension() {
    // Bytes that would be a header extension over its end.
    let mut data =
        vec![0x90, 200, 0, 1, 0, 0, 0, 2, 0, 0, 0, 3, 0xBE, 0xDE, 0, 1, 0x5F, 0xAA, 0xBB, 0x00];
    let mut engine = engine_of(1);
    engine.enable_rtcp_mux(true);
    assert_eq!(kind(&engine.receive(&data, 0)), "control");
    data.truncate(11);
    assert_eq!(kind(&engine.receive(&data, 0)), "dropped");
}

#[test]
fn test_rtcp_mux_config() {
    let config = RtpEngineConfig {
        rtcp_mux: true,
        ..Default::default()
    };
    let engine = RtpEngine::new(config);
    assert!(engine.is_rtcp_mux_enabled());
}

#[test]
fn test_codec_asymmetry() {
    let config = RtpEngineConfig {
        codec: CodecType::Pcmu,
        recv_codec: Some(CodecType::Pcma),
        ..Default::default()
    };
    let engine = RtpEngine::new(config);

    assert_eq!(engine.codec_type(), CodecType::Pcmu);
    assert_eq!(engine.recv_codec_type(), CodecType::Pcma);
}

#[test]
fn test_codec_asymmetry_set_recv() {
    let mut engine = RtpEngine::with_defaults();

    assert_eq!(engine.recv_codec_type(), CodecType::Pcmu);
    engine.set_recv_codec(CodecType::Pcma);
    assert_eq!(engine.recv_codec_type(), CodecType::Pcma);
}

#[test]
fn test_ptime_default() {
    let engine = RtpEngine::with_defaults();
    assert_eq!(engine.ptime(), 20);
    assert_eq!(engine.samples_per_packet(), 160);
}

#[test]
fn test_ptime_set() {
    let config = RtpEngineConfig {
        ptime_ms: 30,
        ..Default::default()
    };
    let mut engine = RtpEngine::new(config);
    assert_eq!(engine.ptime(), 30);
    assert_eq!(engine.samples_per_packet(), 240);

    engine.set_ptime(10);
    assert_eq!(engine.ptime(), 10);
    assert_eq!(engine.samples_per_packet(), 80);
}

#[test]
fn test_remote_ssrc_initial() {
    let engine = RtpEngine::with_defaults();
    assert!(engine.remote_ssrc().is_none());
}

#[test]
fn test_cn_amplitude_no_cn_received() {
    // Before any CN packet is received, cn_amplitude() must return 0
    let engine = RtpEngine::with_defaults();
    assert_eq!(engine.cn_amplitude(), 0);
    assert!(engine.last_cn_level().is_none());
}

#[test]
fn test_cn_amplitude_values() {
    let mut engine = RtpEngine::with_defaults();

    // Manually set CN level to simulate receiving a CN packet
    engine.state.last_cn_level = Some(0); // max noise
    assert_eq!(engine.cn_amplitude(), 254); // (127-0)*2

    engine.state.last_cn_level = Some(127); // digital silence
    assert_eq!(engine.cn_amplitude(), 0); // (127-127)*2

    engine.state.last_cn_level = Some(60); // mid-level
    assert_eq!(engine.cn_amplitude(), 134); // (127-60)*2
}

#[test]
fn test_audio_payload_type_default_none() {
    let config = RtpEngineConfig::default();
    assert!(config.audio_payload_type.is_none());

    let engine = RtpEngine::with_defaults();
    assert!(engine.state.config.audio_payload_type.is_none());
}

#[test]
fn test_audio_payload_type_configured() {
    let config = RtpEngineConfig {
        audio_payload_type: Some(0), // PCMU
        ..Default::default()
    };
    let engine = RtpEngine::new(config);
    assert_eq!(engine.state.config.audio_payload_type, Some(0));
}

#[test]
fn test_set_ptime_propagates_to_normalizer() {
    let mut engine = RtpEngine::with_defaults();

    // Default ptime should be 20ms
    assert_eq!(engine.state.timestamp_normalizer.ptime_ms, 20);

    engine.set_ptime(30);
    assert_eq!(engine.state.timestamp_normalizer.ptime_ms, 30);
}

#[test]
fn test_hold_state_management() {
    let mut engine = RtpEngine::with_defaults();

    // Initially not on hold
    assert!(!engine.is_on_hold());

    // Set hold
    engine.set_hold_state(true);
    assert!(engine.is_on_hold());

    // Unset hold
    engine.set_hold_state(false);
    assert!(!engine.is_on_hold());
}

#[test]
fn test_effective_media_timeout_normal_vs_hold() {
    let config = RtpEngineConfig {
        media_timeout_ms: 30_000,
        hold_media_timeout_ms: 1_800_000,
        ..Default::default()
    };
    let mut engine = RtpEngine::new(config);

    // Normal: 30 seconds
    assert_eq!(engine.effective_media_timeout(), 30_000);

    // On hold: 30 minutes
    engine.set_hold_state(true);
    assert_eq!(engine.effective_media_timeout(), 1_800_000);

    // Back to normal
    engine.set_hold_state(false);
    assert_eq!(engine.effective_media_timeout(), 30_000);
}

#[test]
fn test_silence_when_idle_config() {
    // Default: disabled
    let engine = RtpEngine::with_defaults();
    assert!(!engine.state.config.send_silence_when_idle);

    // Enabled via config
    let config = RtpEngineConfig {
        send_silence_when_idle: true,
        ..Default::default()
    };
    let engine2 = RtpEngine::new(config);
    assert!(engine2.state.config.send_silence_when_idle);
}

#[test]
fn test_force_marker() {
    let mut engine = RtpEngine::with_defaults();

    // Initially false
    assert!(!engine.state.force_marker);

    engine.request_marker();
    assert!(engine.state.force_marker);
}

#[test]
fn test_reset_stream_state() {
    let mut engine = RtpEngine::with_defaults();

    // Populate some state
    engine.state.timestamp_normalizer.normalize(5000);
    engine.state.timestamp_normalizer.normalize(5160);
    engine.state.audio_pt_mismatch_warned = true;

    // Reset should not panic and should clear the PT warning flag
    engine.reset_stream_state();

    assert!(!engine.state.audio_pt_mismatch_warned,
        "audio_pt_mismatch_warned should be reset");

    // After reset, normalizer should re-establish mapping from scratch
    let n1 = engine.state.timestamp_normalizer.normalize(90000);
    let n2 = engine.state.timestamp_normalizer.normalize(90160);
    assert_eq!(n2.wrapping_sub(n1), 160,
        "After reset, normalizer should produce smooth timestamps");
}

#[test]
fn test_rtp_engine_creation() {
    let engine = RtpEngine::with_defaults();
    assert_eq!(engine.codec_type(), CodecType::Pcmu);
    assert!(!engine.is_running());
}

#[test]
fn test_rtp_loopback() {
    let config = RtpEngineConfig {
        jitter_config: JitterConfig { target_delay_ms: 20, min_delay_ms: 10, ..Default::default() },
        ..Default::default()
    };
    let mut engine1 = RtpEngine::new(RtpEngineConfig { ssrc: Some(1), ..config });
    let mut engine2 = RtpEngine::new(RtpEngineConfig { ssrc: Some(2), ..config });

    engine1.start().unwrap();
    engine2.start().unwrap();

    let samples: Vec<i16> = (0..160).map(|i| (i * 100) as i16).collect();
    let mut received: Vec<Vec<i16>> = Vec::new();
    for i in 0..5u64 {
        let bytes = engine1.send_audio(&samples).unwrap();
        engine1.audio_sent(i * 20 * MS);
        assert_eq!(kind(&engine2.receive(&bytes, i * 20 * MS)), "audio");
        received.extend(engine2.play(20).frames);
    }

    assert!(!received.is_empty());
    assert_eq!(received[0].len(), 160);
    for (a, b) in samples.iter().zip(received[0].iter()) {
        assert!((*a as i32 - *b as i32).abs() <= 512);
    }

    assert_eq!(engine1.stop(), None);
    assert_eq!(engine2.stop(), None);
}

#[test]
fn test_rtp_dtmf_loopback() {
    let mut engine1 = engine_of(1);
    let mut engine2 = engine_of(2);

    let packets = engine1.send_dtmf('5', 100).unwrap();
    let mut detected = None;
    for p in &packets {
        let r = engine2.receive(&p.to_rtp_bytes(), 0);
        if let ReceptionKind::Digit(Some(d)) = r.kind {
            detected = Some(d);
        }
    }
    assert!(detected.is_some());
    assert_eq!(detected.unwrap().digit, '5');
}

#[test]
fn test_media_timeout_initial() {
    let config = RtpEngineConfig { media_timeout_ms: 100, ..Default::default() };
    let engine = RtpEngine::new(config);

    // No RTP received yet: not timed out
    assert!(!engine.is_media_timed_out(u64::MAX));
    assert!(engine.last_rtp_received().is_none());
}

#[test]
fn test_audio_payload_type_validation_drops_mismatch() {
    let mut sender =
        RtpEngine::new(RtpEngineConfig { codec: CodecType::Pcma, ..Default::default() });
    let mut receiver = RtpEngine::new(RtpEngineConfig {
        audio_payload_type: Some(0),
        jitter_config: JitterConfig { target_delay_ms: 20, min_delay_ms: 10, ..Default::default() },
        ..Default::default()
    });

    let samples: Vec<i16> = (0..160).map(|i| (i * 100) as i16).collect();
    for i in 0..5u64 {
        let bytes = sender.send_audio(&samples).unwrap();
        let r = receiver.receive(&bytes, i * 20 * MS);
        assert_eq!(r.kind, ReceptionKind::WrongType { first: i == 0 });
    }
    let out = receiver.play(20);
    assert!(out.frames.is_empty());
    assert!(!out.conceal);
}

#[test]
fn test_audio_payload_type_validation_accepts_match() {
    let config = RtpEngineConfig {
        codec: CodecType::Pcmu,
        audio_payload_type: Some(0),
        jitter_config: JitterConfig { target_delay_ms: 20, min_delay_ms: 10, ..Default::default() },
        ..Default::default()
    };
    let mut sender = RtpEngine::new(config);
    let mut receiver = RtpEngine::new(config);

    let samples: Vec<i16> = (0..160).map(|i| (i * 100) as i16).collect();
    let mut heard = 0;
    for i in 0..5u64 {
        let bytes = sender.send_audio(&samples).unwrap();
        assert_eq!(kind(&receiver.receive(&bytes, i * 20 * MS)), "audio");
        heard += receiver.play(20).frames.len();
    }
    assert!(heard > 0);
}

#[test]
fn test_hold_media_timeout_config_respected() {
    let config = RtpEngineConfig {
        media_timeout_ms: 1_000,
        hold_media_timeout_ms: 300_000, // 5 minutes
        ..Default::default()
    };
    let mut engine = RtpEngine::new(config);

    assert_eq!(engine.state.config.media_timeout_ms, 1_000);
    assert_eq!(engine.state.config.hold_media_timeout_ms, 300_000);

    // Normal mode uses media_timeout_ms
    assert_eq!(engine.effective_media_timeout(), 1_000);

    // Hold mode uses hold_media_timeout_ms
    engine.set_hold_state(true);
    assert_eq!(engine.effective_media_timeout(), 300_000);

    // The last packet was 2 seconds ago
    engine.state.last_rtp_received = Some(10_000 * MS);
    assert!(!engine.is_media_timed_out(12_000 * MS));

    engine.set_hold_state(false);
    assert!(engine.is_media_timed_out(12_000 * MS));
}

#[test]
fn a_second_start_is_refused() {
    let mut engine = engine_of(1);
    engine.start().unwrap();
    assert_eq!(engine.start().unwrap_err().message(), "Already started");
    engine.set_allocated_port(4000);
    assert_eq!(engine.stop(), Some(4000));
    assert_eq!(engine.stop(), None);
    engine.start().unwrap();
}

#[test]
fn our_own_source_keeps_no_timeout_away() {
    let mut a = engine_of(7);
    let mut b = engine_of(7);
    let bytes = a.send_audio(&[1; 160]).unwrap();
    assert_eq!(kind(&b.receive(&bytes, 5)), "own source");
    assert_eq!(b.last_rtp_received(), None);
    assert_eq!(b.remote_ssrc(), None);
}

#[test]
fn a_new_source_starts_the_stream_over() {
    let mut a = engine_of(1);
    let mut b = engine_of(2);
    let mut c = engine_of(3);
    assert!(!c.receive(&a.send_audio(&[1; 160]).unwrap(), 0).reset);
    assert!(!c.receive(&a.send_audio(&[1; 160]).unwrap(), 0).reset);
    assert_eq!(c.jitter_stats().packets_received, 2);
    assert!(c.receive(&b.send_audio(&[1; 160]).unwrap(), 0).reset);
    assert_eq!(c.remote_ssrc(), Some(2));
    assert_eq!(c.jitter_stats().packets_received, 1);
}

#[test]
fn a_timeout_is_told_once_until_a_packet_comes() {
    let mut a = engine_of(1);
    let mut b = engine_of(2);
    b.receive(&a.send_audio(&[1; 160]).unwrap(), 0);
    assert!(!b.check_timeout(29_999 * MS));
    assert!(b.check_timeout(30_000 * MS));
    assert!(!b.check_timeout(31_000 * MS));
    b.receive(&a.send_audio(&[1; 160]).unwrap(), 40_000 * MS);
    assert!(!b.check_timeout(40_001 * MS));
    assert!(b.check_timeout(70_000 * MS));
}

#[test]
fn comfort_noise_is_paced_and_marks_the_next_voice() {
    let mut a = engine_of(1);
    a.state.last_cn_level = Some(40);
    let first = a.send_comfort_noise(0).unwrap().unwrap();
    a.comfort_noise_sent(0);
    let p = parse_rtp_packet(&first).unwrap();
    assert_eq!(p.header.payload_type, 13);
    assert_eq!(p.payload, vec![40, 0]);
    assert!(p.header.marker);
    assert!(a.send_comfort_noise(1199 * MS).unwrap().is_none());
    let second = a.send_comfort_noise(1200 * MS).unwrap().unwrap();
    a.comfort_noise_sent(1200 * MS);
    assert!(!parse_rtp_packet(&second).unwrap().header.marker);
    let voice = parse_rtp_packet(&a.send_audio(&[0; 160]).unwrap()).unwrap();
    assert!(voice.header.marker);
    assert_eq!(voice.header.timestamp.wrapping_sub(p.header.timestamp), 320);
    assert!(!parse_rtp_packet(&a.send_audio(&[0; 160]).unwrap()).unwrap().header.marker);
}

#[test]
fn comfort_noise_has_a_usual_level() {
    let mut a = engine_of(1);
    let mut b = engine_of(2);
    let bytes = a.send_comfort_noise(0).unwrap().unwrap();
    assert_eq!(kind(&b.receive(&bytes, 0)), "comfort noise");
    assert_eq!(b.last_cn_level(), Some(65));
    assert_eq!(b.cn_amplitude(), 124);
}

#[test]
fn a_marker_can_be_asked_for() {
    let mut a = engine_of(1);
    a.request_marker();
    assert!(parse_rtp_packet(&a.send_audio(&[0; 160]).unwrap()).unwrap().header.marker);
    assert!(!parse_rtp_packet(&a.send_audio(&[0; 160]).unwrap()).unwrap().header.marker);
    let p = a.send_audio_with_marker(&[0; 160], true).unwrap();
    assert!(parse_rtp_packet(&p).unwrap().header.marker);
}

#[test]
fn control_packets_share_the_port_only_if_agreed() {
    let mut a = engine_of(1);
    let rr = [0x80, 201, 0, 1, 0, 0, 0, 9, 0, 0, 0, 0];
    assert_eq!(kind(&a.receive(&rr, 0)), "audio");
    a.enable_rtcp_mux(true);
    assert_eq!(kind(&a.receive(&rr, 0)), "control");
    assert_eq!(kind(&a.receive(&[0x80, 0, 0], 0)), "dropped");
}

#[test]
fn a_packet_of_another_version_is_dropped() {
    let mut a = engine_of(1);
    let p = [0x40, 0, 0, 1, 0, 0, 0, 9, 0, 0, 0, 2, 5];
    assert_eq!(kind(&a.receive(&p, 0)), "dropped");
    assert_eq!(a.last_rtp_received(), None);
}

#[test]
fn a_packet_that_is_there_is_not_taken_twice() {
    let mut a = engine_of(1);
    let mut b = engine_of(2);
    let bytes = a.send_audio(&[9; 160]).unwrap();
    assert_eq!(kind(&b.receive(&bytes, 0)), "audio");
    assert_eq!(kind(&b.receive(&bytes, 0)), "duplicate");
}

#[test]
fn digits_take_sequence_numbers_of_the_stream() {
    let mut a = engine_of(1);
    let before = a.packet_builder.sequence();
    let packets = a.send_dtmf('1', 100).unwrap();
    assert_eq!(packets[0].sequence, before);
    let last = packets[packets.len() - 1].sequence;
    let next = parse_rtp_packet(&a.send_audio(&[0; 160]).unwrap()).unwrap();
    assert_eq!(next.header.sequence_number, last.wrapping_add(1));
    assert!(a.send_dtmf('?', 100).is_err());
}

#[test]
fn the_last_packets_of_a_digit_are_not_spaced() {
    assert!(RtpEngine::waits_after(0, 8));
    assert!(RtpEngine::waits_after(4, 8));
    assert!(!RtpEngine::waits_after(5, 8));
    assert!(!RtpEngine::waits_after(0, 2));
    assert!(RtpEngine::waits_after_digit(0, 2));
    assert!(!RtpEngine::waits_after_digit(1, 2));
    assert!(!RtpEngine::waits_after_digit(0, 0));
}

#[test]
fn silence_is_due_after_a_packet_time() {
    let mut a = engine_of(1);
    assert!(a.silence_due(0));
    a.audio_sent(100 * MS);
    assert!(!a.silence_due(120 * MS));
    assert!(a.silence_due(121 * MS));
}

#[test]
fn dropped_frames_are_told_by_the_hundred() {
    let mut a = engine_of(1);
    assert_eq!(a.count_dropped_frame(), Some(1));
    for _ in 0..99 {
        assert_eq!(a.count_dropped_frame(), None);
    }
    assert_eq!(a.count_dropped_frame(), Some(101));
}

#[test]
fn workarounds_reach_the_digit_sender() {
    let mut a = engine_of(1);
    a.set_rtp_bug_flags(RtpBugFlags::detect_from_user_agent("Sonus"));
    assert!(a.rtp_bug_flags().never_send_marker);
    let packets = a.send_dtmf('1', 100).unwrap();
    assert!(!packets[0].marker);
}

#[test]
fn a_used_up_range_has_no_port() {
    let mut pool = PortPool::new();
    assert_eq!(allocate_rtp_port(&mut pool, 5000, 5000), None);
    assert_eq!(allocate_rtp_port(&mut pool, 5001, 5002), None);
    assert_eq!(pool.allocate_from(6000, 6006, 2), Some(6004));
    assert_eq!(pool.allocate_from(6000, 6006, 2), Some(6000));
}

#[test]
fn what_was_asked_for_shows() {
    let mut a = engine_of(42);
    assert_eq!(a.ssrc(), 42);
    assert!(a.can_receive());
    assert!(a.can_play());
    a.receive(&engine_of(1).send_audio(&[1; 160]).unwrap(), 0);
    a.reset_jitter_buffer();
    assert_eq!(a.jitter_stats().packets_received, 0);
    a.reset_dtmf_detector();
    assert!(!a.dtmf_detector.has_digits());
}
