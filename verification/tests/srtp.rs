//! Protection of packets.

use rtpsip::rtp::srtp::{
    aes_cm_encrypt, aes_cm_encrypt_srtcp, constant_time_eq, derive_session_keys, prf_derive,
    rtp_header_len,
};
use rtpsip::rtp::{CryptoAttribute, SrtpCipherSuite, SrtpContext};

const SRTP_MASTER_KEY_LEN: usize = 16;
const SRTP_MASTER_SALT_LEN: usize = 14;
const SRTP_SESSION_SALT_LEN: usize = 14;

#[test]
fn test_crypto_attribute_parse() {
    // Standard AES_CM_128_HMAC_SHA1_80 crypto line
    let value = "1 AES_CM_128_HMAC_SHA1_80 inline:YUJDZGVmZ2hpamtsbW5vcHFyc3R1dnd4eXoxMjM0";
    let crypto = CryptoAttribute::parse(value).unwrap();
    assert_eq!(crypto.tag, 1);
    assert_eq!(crypto.suite, SrtpCipherSuite::AesCm128HmacSha1_80);
    assert_eq!(crypto.master_key.len(), 16);
    assert_eq!(crypto.master_salt.len(), 14);
}

#[test]
fn test_crypto_attribute_parse_with_lifetime() {
    // Crypto line with lifetime parameter
    let value = "1 AES_CM_128_HMAC_SHA1_80 inline:YUJDZGVmZ2hpamtsbW5vcHFyc3R1dnd4eXoxMjM0|2^31";
    let crypto = CryptoAttribute::parse(value).unwrap();
    assert_eq!(crypto.tag, 1);
    assert_eq!(crypto.suite, SrtpCipherSuite::AesCm128HmacSha1_80);
}

#[test]
fn test_crypto_attribute_parse_32bit() {
    let value = "2 AES_CM_128_HMAC_SHA1_32 inline:YUJDZGVmZ2hpamtsbW5vcHFyc3R1dnd4eXoxMjM0";
    let crypto = CryptoAttribute::parse(value).unwrap();
    assert_eq!(crypto.tag, 2);
    assert_eq!(crypto.suite, SrtpCipherSuite::AesCm128HmacSha1_32);
}

#[test]
fn test_crypto_attribute_roundtrip() {
    let sent = CryptoAttribute::generate(SrtpCipherSuite::AesCm128HmacSha1_80);
    let sdp_value = sent.to_sdp_value();
    let parsed = CryptoAttribute::parse(&sdp_value).unwrap();
    assert_eq!(parsed.tag, sent.tag);
    assert_eq!(parsed.suite, sent.suite);
    assert_eq!(parsed.master_key, sent.master_key);
    assert_eq!(parsed.master_salt, sent.master_salt);
}

#[test]
fn test_crypto_attribute_invalid() {
    // Too few fields
    assert!(CryptoAttribute::parse("1 AES_CM_128_HMAC_SHA1_80").is_err());
    // Invalid suite
    assert!(CryptoAttribute::parse("1 INVALID_SUITE inline:abc").is_err());
    assert!(CryptoAttribute::parse("1 AES_CM_128_HMAC_SHA1_80 key:abc").is_err());
    // Wrong key length
    assert!(CryptoAttribute::parse("1 AES_CM_128_HMAC_SHA1_80 inline:dG9vc2hvcnQ=").is_err());
}

#[test]
fn test_srtp_protect_unprotect_roundtrip() {
    let crypto = CryptoAttribute::generate(SrtpCipherSuite::AesCm128HmacSha1_80);

    // Create matching send/receive contexts (same key material)
    let mut send_ctx = SrtpContext::from_crypto(&crypto);
    let mut recv_ctx = SrtpContext::from_crypto(&crypto);

    // Build a minimal RTP packet
    // V=2, P=0, X=0, CC=0, M=0, PT=0, seq=1, ts=160, ssrc=12345
    let mut rtp_packet = vec![0x80, 0x00, 0x00, 0x01]; // header byte 0-3
    rtp_packet.extend_from_slice(&160u32.to_be_bytes()); // timestamp
    rtp_packet.extend_from_slice(&12345u32.to_be_bytes()); // ssrc
    rtp_packet.extend_from_slice(&[0x01, 0x02, 0x03, 0x04, 0x05]); // payload

    // Protect
    let srtp_packet = send_ctx.protect_rtp(&rtp_packet).unwrap();
    assert_ne!(&srtp_packet[12..12 + 5], &[0x01, 0x02, 0x03, 0x04, 0x05]);
    assert_eq!(srtp_packet.len(), rtp_packet.len() + 10); // +auth_tag

    // Unprotect
    let decrypted = recv_ctx.unprotect_rtp(&srtp_packet).unwrap();
    assert_eq!(decrypted, rtp_packet);
}

#[test]
fn test_srtp_32bit_auth_tag() {
    let crypto = CryptoAttribute::generate(SrtpCipherSuite::AesCm128HmacSha1_32);
    let mut send_ctx = SrtpContext::from_crypto(&crypto);
    let mut recv_ctx = SrtpContext::from_crypto(&crypto);

    let mut rtp_packet = vec![0x80, 0x00, 0x00, 0x01];
    rtp_packet.extend_from_slice(&160u32.to_be_bytes());
    rtp_packet.extend_from_slice(&12345u32.to_be_bytes());
    rtp_packet.extend_from_slice(&[0xAA; 160]); // 160 bytes of audio

    let srtp_packet = send_ctx.protect_rtp(&rtp_packet).unwrap();
    assert_eq!(srtp_packet.len(), rtp_packet.len() + 4); // +4 byte auth tag

    let decrypted = recv_ctx.unprotect_rtp(&srtp_packet).unwrap();
    assert_eq!(decrypted, rtp_packet);
}

#[test]
fn test_srtp_authentication_failure() {
    let crypto = CryptoAttribute::generate(SrtpCipherSuite::AesCm128HmacSha1_80);
    let mut send_ctx = SrtpContext::from_crypto(&crypto);

    // Different key for receiver — should fail auth
    let other_crypto = CryptoAttribute::generate(SrtpCipherSuite::AesCm128HmacSha1_80);
    let mut recv_ctx = SrtpContext::from_crypto(&other_crypto);

    let mut rtp_packet = vec![0x80, 0x00, 0x00, 0x01];
    rtp_packet.extend_from_slice(&160u32.to_be_bytes());
    rtp_packet.extend_from_slice(&12345u32.to_be_bytes());
    rtp_packet.extend_from_slice(&[0xBB; 20]);

    let srtp_packet = send_ctx.protect_rtp(&rtp_packet).unwrap();
    assert!(recv_ctx.unprotect_rtp(&srtp_packet).is_err());
}

#[test]
fn test_srtp_replay_protection() {
    let crypto = CryptoAttribute::generate(SrtpCipherSuite::AesCm128HmacSha1_80);
    let mut send_ctx = SrtpContext::from_crypto(&crypto);
    let mut recv_ctx = SrtpContext::from_crypto(&crypto);

    let mut rtp_packet = vec![0x80, 0x00, 0x00, 0x01];
    rtp_packet.extend_from_slice(&160u32.to_be_bytes());
    rtp_packet.extend_from_slice(&12345u32.to_be_bytes());
    rtp_packet.extend_from_slice(&[0xCC; 10]);

    let srtp_packet = send_ctx.protect_rtp(&rtp_packet).unwrap();

    // First unprotect — should succeed
    let _ = recv_ctx.unprotect_rtp(&srtp_packet).unwrap();

    // Replay the same packet — should fail
    assert!(recv_ctx.unprotect_rtp(&srtp_packet).is_err());
}

#[test]
fn test_srtp_multiple_packets() {
    let crypto = CryptoAttribute::generate(SrtpCipherSuite::AesCm128HmacSha1_80);
    let mut send_ctx = SrtpContext::from_crypto(&crypto);
    let mut recv_ctx = SrtpContext::from_crypto(&crypto);

    for seq in 1u16..=100 {
        let mut rtp_packet = vec![0x80, 0x00];
        rtp_packet.extend_from_slice(&seq.to_be_bytes());
        rtp_packet.extend_from_slice(&((seq as u32) * 160).to_be_bytes());
        rtp_packet.extend_from_slice(&12345u32.to_be_bytes());
        rtp_packet.extend_from_slice(&[seq as u8; 160]);

        let srtp_packet = send_ctx.protect_rtp(&rtp_packet).unwrap();
        let decrypted = recv_ctx.unprotect_rtp(&srtp_packet).unwrap();
        assert_eq!(decrypted, rtp_packet);
    }
}

#[test]
fn test_srtcp_protect_unprotect() {
    let crypto = CryptoAttribute::generate(SrtpCipherSuite::AesCm128HmacSha1_80);
    let mut send_ctx = SrtpContext::from_crypto(&crypto);
    let mut recv_ctx = SrtpContext::from_crypto(&crypto);

    // Minimal RTCP SR packet (28 bytes)
    let mut rtcp_packet = vec![
        0x80, 0xC8, 0x00, 0x06, // V=2, PT=200 (SR), length=6
        0x00, 0x00, 0x30, 0x39, // SSRC=12345
    ];
    rtcp_packet.extend_from_slice(&[0x11; 20]); // SR body

    let srtcp_packet = send_ctx.protect_rtcp(&rtcp_packet).unwrap();
    assert_eq!(srtcp_packet.len(), rtcp_packet.len() + 14);

    let decrypted = recv_ctx.unprotect_rtcp(&srtcp_packet).unwrap();
    assert_eq!(decrypted, rtcp_packet);
}

#[test]
fn test_srtcp_authentication_failure() {
    let crypto = CryptoAttribute::generate(SrtpCipherSuite::AesCm128HmacSha1_80);
    let mut send_ctx = SrtpContext::from_crypto(&crypto);

    let other_crypto = CryptoAttribute::generate(SrtpCipherSuite::AesCm128HmacSha1_80);
    let mut recv_ctx = SrtpContext::from_crypto(&other_crypto);

    let rtcp_packet = vec![
        0x80, 0xC8, 0x00, 0x06,
        0x00, 0x00, 0x30, 0x39,
        0x11, 0x22, 0x33, 0x44, 0x55, 0x66, 0x77, 0x88,
        0x99, 0xAA, 0xBB, 0xCC, 0xDD, 0xEE, 0xFF, 0x00,
        0x11, 0x22, 0x33, 0x44,
    ];

    let srtcp_packet = send_ctx.protect_rtcp(&rtcp_packet).unwrap();
    assert!(recv_ctx.unprotect_rtcp(&srtcp_packet).is_err());
}

#[test]
fn test_key_derivation_deterministic() {
    let master_key = [0x01u8; SRTP_MASTER_KEY_LEN];
    let master_salt = [0x02u8; SRTP_MASTER_SALT_LEN];

    let keys1 = derive_session_keys(&master_key, &master_salt, false, 0, 0);
    let keys2 = derive_session_keys(&master_key, &master_salt, false, 0, 0);

    assert_eq!(keys1.enc_key, keys2.enc_key);
    assert_eq!(keys1.auth_key, keys2.auth_key);
    assert_eq!(keys1.salt, keys2.salt);
}

#[test]
fn test_rtp_header_len_basic() {
    // Minimal RTP header (12 bytes, CC=0, no extension)
    let packet = vec![0x80, 0x00, 0x00, 0x01, 0, 0, 0, 0xA0, 0, 0, 0x30, 0x39, 0xFF];
    assert_eq!(rtp_header_len(&packet).unwrap(), 12);
}

#[test]
fn test_rtp_header_len_with_csrc() {
    // CC=2 (2 CSRCs = 8 extra bytes)
    let mut packet = vec![0x82, 0x00, 0x00, 0x01, 0, 0, 0, 0xA0, 0, 0, 0x30, 0x39];
    packet.extend_from_slice(&[0; 8]); // 2 CSRCs
    packet.push(0xFF); // payload
    assert_eq!(rtp_header_len(&packet).unwrap(), 20);
}

#[test]
fn test_rtp_header_len_with_extension() {
    // X=1, extension with 1 word (4 bytes)
    let mut packet = vec![0x90, 0x00, 0x00, 0x01, 0, 0, 0, 0xA0, 0, 0, 0x30, 0x39];
    packet.extend_from_slice(&[0xBE, 0xDE, 0x00, 0x01]); // extension header (profile=0xBEDE, len=1)
    packet.extend_from_slice(&[0; 4]); // 1 extension word
    packet.push(0xFF); // payload
    assert_eq!(rtp_header_len(&packet).unwrap(), 20);
}

#[test]
fn test_constant_time_eq() {
    assert!(constant_time_eq(&[1, 2, 3], &[1, 2, 3]));
    assert!(!constant_time_eq(&[1, 2, 3], &[1, 2, 4]));
    assert!(!constant_time_eq(&[1, 2], &[1, 2, 3]));
}

#[test]
fn test_out_of_order_packets() {
    let crypto = CryptoAttribute::generate(SrtpCipherSuite::AesCm128HmacSha1_80);
    let mut send_ctx = SrtpContext::from_crypto(&crypto);
    let mut recv_ctx = SrtpContext::from_crypto(&crypto);

    // Send packets 1, 2, 3
    let mut packets = Vec::new();
    for seq in 1u16..=3 {
        let mut rtp = vec![0x80, 0x00];
        rtp.extend_from_slice(&seq.to_be_bytes());
        rtp.extend_from_slice(&((seq as u32) * 160).to_be_bytes());
        rtp.extend_from_slice(&42u32.to_be_bytes());
        rtp.extend_from_slice(&[seq as u8; 20]);
        let srtp = send_ctx.protect_rtp(&rtp).unwrap();
        packets.push((rtp, srtp));
    }

    // Receive out of order: 1, 3, 2
    let d1 = recv_ctx.unprotect_rtp(&packets[0].1).unwrap();
    assert_eq!(d1, packets[0].0);

    let d3 = recv_ctx.unprotect_rtp(&packets[2].1).unwrap();
    assert_eq!(d3, packets[2].0);

    let d2 = recv_ctx.unprotect_rtp(&packets[1].1).unwrap();
    assert_eq!(d2, packets[1].0);
}

#[test]
fn test_srtp_error_count_increments() {
    let crypto = CryptoAttribute::generate(SrtpCipherSuite::AesCm128HmacSha1_80);
    let mut send_ctx = SrtpContext::from_crypto(&crypto);

    // Use a different key for receiver so all unprotects fail
    let other = CryptoAttribute::generate(SrtpCipherSuite::AesCm128HmacSha1_80);
    let mut recv_ctx = SrtpContext::from_crypto(&other);

    let mut rtp = vec![0x80, 0x00, 0x00, 0x01];
    rtp.extend_from_slice(&160u32.to_be_bytes());
    rtp.extend_from_slice(&42u32.to_be_bytes());
    rtp.extend_from_slice(&[0xAA; 20]);

    // Send 15 packets — all should fail
    for seq in 1u16..=15 {
        let mut pkt = vec![0x80, 0x00];
        pkt.extend_from_slice(&seq.to_be_bytes());
        pkt.extend_from_slice(&((seq as u32) * 160).to_be_bytes());
        pkt.extend_from_slice(&42u32.to_be_bytes());
        pkt.extend_from_slice(&[0xBB; 20]);
        let srtp = send_ctx.protect_rtp(&pkt).unwrap();
        let _ = recv_ctx.unprotect_rtp(&srtp);
    }

    // Error count should be 15
    assert_eq!(recv_ctx.error_count(), 15);
}

#[test]
fn test_srtp_error_count_resets_on_success() {
    let crypto = CryptoAttribute::generate(SrtpCipherSuite::AesCm128HmacSha1_80);
    let mut send_ctx = SrtpContext::from_crypto(&crypto);
    let mut recv_ctx = SrtpContext::from_crypto(&crypto);

    // First, feed a bad packet (tampered)
    let mut rtp = vec![0x80, 0x00, 0x00, 0x01];
    rtp.extend_from_slice(&160u32.to_be_bytes());
    rtp.extend_from_slice(&42u32.to_be_bytes());
    rtp.extend_from_slice(&[0xCC; 20]);
    let mut srtp = send_ctx.protect_rtp(&rtp).unwrap();
    srtp[12] ^= 0xFF; // Tamper
    let _ = recv_ctx.unprotect_rtp(&srtp);
    assert!(recv_ctx.error_count() > 0);

    // Now send a good packet
    let mut rtp2 = vec![0x80, 0x00, 0x00, 0x02];
    rtp2.extend_from_slice(&320u32.to_be_bytes());
    rtp2.extend_from_slice(&42u32.to_be_bytes());
    rtp2.extend_from_slice(&[0xDD; 20]);
    let srtp2 = send_ctx.protect_rtp(&rtp2).unwrap();
    let _ = recv_ctx.unprotect_rtp(&srtp2).unwrap();

    // Error count should be reset to 0
    assert_eq!(recv_ctx.error_count(), 0);
}

#[test]
fn test_tampered_packet_rejected() {
    let crypto = CryptoAttribute::generate(SrtpCipherSuite::AesCm128HmacSha1_80);
    let mut send_ctx = SrtpContext::from_crypto(&crypto);
    let mut recv_ctx = SrtpContext::from_crypto(&crypto);

    let mut rtp = vec![0x80, 0x00, 0x00, 0x01];
    rtp.extend_from_slice(&160u32.to_be_bytes());
    rtp.extend_from_slice(&99u32.to_be_bytes());
    rtp.extend_from_slice(&[0xDD; 40]);

    let mut srtp = send_ctx.protect_rtp(&rtp).unwrap();

    srtp[12] ^= 0xFF;

    // Should fail authentication
    assert!(recv_ctx.unprotect_rtp(&srtp).is_err());
}

#[test]
fn test_roc_wraparound_without_exact_boundary() {
    let crypto = CryptoAttribute::generate(SrtpCipherSuite::AesCm128HmacSha1_80);
    let mut send_ctx = SrtpContext::from_crypto(&crypto);
    let mut recv_ctx = SrtpContext::from_crypto(&crypto);

    // Send packets from seq 0xFFF0 up to 0xFFFE (skip 0xFFFF and 0x0000)
    let mut packets = Vec::new();
    for seq in 0xFFF0u16..=0xFFFE {
        let mut rtp = vec![0x80, 0x00];
        rtp.extend_from_slice(&seq.to_be_bytes());
        rtp.extend_from_slice(&((seq as u32) * 160).to_be_bytes());
        rtp.extend_from_slice(&12345u32.to_be_bytes());
        rtp.extend_from_slice(&[0xAA; 20]);
        let srtp = send_ctx.protect_rtp(&rtp).unwrap();
        packets.push((seq, rtp, srtp));
    }

    // Now send packets 0xFFFF and 0x0000 (the boundary)
    for seq in [0xFFFFu16, 0x0000u16] {
        let mut rtp = vec![0x80, 0x00];
        rtp.extend_from_slice(&seq.to_be_bytes());
        rtp.extend_from_slice(&((seq as u32) * 160).to_be_bytes());
        rtp.extend_from_slice(&12345u32.to_be_bytes());
        rtp.extend_from_slice(&[0xAA; 20]);
        let srtp = send_ctx.protect_rtp(&rtp).unwrap();
        packets.push((seq, rtp, srtp));
    }

    // Send a few more after the wrap
    for seq in 0x0001u16..=0x0005 {
        let mut rtp = vec![0x80, 0x00];
        rtp.extend_from_slice(&seq.to_be_bytes());
        rtp.extend_from_slice(&((seq as u32) * 160).to_be_bytes());
        rtp.extend_from_slice(&12345u32.to_be_bytes());
        rtp.extend_from_slice(&[0xAA; 20]);
        let srtp = send_ctx.protect_rtp(&rtp).unwrap();
        packets.push((seq, rtp, srtp));
    }

    // Receive all packets — receiver should handle the wrap gracefully
    for (_seq, rtp_orig, srtp) in &packets {
        let decrypted = recv_ctx.unprotect_rtp(srtp).unwrap();
        assert_eq!(&decrypted, rtp_orig);
    }

    // Now test the case where the exact boundary packets (0xFFFF, 0x0000) are LOST.
    // Re-create contexts.
    let mut send_ctx2 = SrtpContext::from_crypto(&crypto);
    let mut recv_ctx2 = SrtpContext::from_crypto(&crypto);

    let mut all_packets = Vec::new();
    // Send 0xFFF0..=0xFFFE, then 0xFFFF, 0x0000, 0x0001..=0x0005
    for seq in (0xFFF0u16..=0xFFFF).chain(0x0000u16..=0x0005) {
        let mut rtp = vec![0x80, 0x00];
        rtp.extend_from_slice(&seq.to_be_bytes());
        rtp.extend_from_slice(&((seq as u32) * 160).to_be_bytes());
        rtp.extend_from_slice(&12345u32.to_be_bytes());
        rtp.extend_from_slice(&[0xBB; 20]);
        let srtp = send_ctx2.protect_rtp(&rtp).unwrap();
        all_packets.push((seq, rtp, srtp));
    }

    // Receive all except the boundary packets (0xFFFF and 0x0000, indices 16 and 17)
    for (i, (_seq, rtp_orig, srtp)) in all_packets.iter().enumerate() {
        if i == 15 || i == 16 {
            continue; // Skip the boundary packets
        }
        let decrypted = recv_ctx2.unprotect_rtp(srtp).unwrap();
        assert_eq!(&decrypted, rtp_orig);
    }
}

#[test]
fn test_srtcp_replay_protection() {
    let crypto = CryptoAttribute::generate(SrtpCipherSuite::AesCm128HmacSha1_80);
    let mut send_ctx = SrtpContext::from_crypto(&crypto);
    let mut recv_ctx = SrtpContext::from_crypto(&crypto);

    let rtcp_packet = vec![
        0x80, 0xC8, 0x00, 0x06,
        0x00, 0x00, 0x30, 0x39,
        0x11, 0x22, 0x33, 0x44, 0x55, 0x66, 0x77, 0x88,
        0x99, 0xAA, 0xBB, 0xCC, 0xDD, 0xEE, 0xFF, 0x00,
        0x11, 0x22, 0x33, 0x44,
    ];

    let srtcp_packet = send_ctx.protect_rtcp(&rtcp_packet).unwrap();

    // First unprotect — should succeed
    let _ = recv_ctx.unprotect_rtcp(&srtcp_packet).unwrap();

    // Replay the same SRTCP packet — should fail
    assert!(recv_ctx.unprotect_rtcp(&srtcp_packet).is_err());
}

#[test]
fn test_srtcp_multiple_packets_with_replay() {
    // Ensure multiple different SRTCP packets work, but replays don't
    let crypto = CryptoAttribute::generate(SrtpCipherSuite::AesCm128HmacSha1_80);
    let mut send_ctx = SrtpContext::from_crypto(&crypto);
    let mut recv_ctx = SrtpContext::from_crypto(&crypto);

    let mut srtcp_packets = Vec::new();
    for i in 0u8..5 {
        let mut rtcp = vec![
            0x80, 0xC8, 0x00, 0x06,
            0x00, 0x00, 0x30, 0x39,
        ];
        rtcp.extend_from_slice(&[i; 20]);
        let srtcp = send_ctx.protect_rtcp(&rtcp).unwrap();
        srtcp_packets.push((rtcp, srtcp));
    }

    // Receive all in order
    for (rtcp_orig, srtcp) in &srtcp_packets {
        let decrypted = recv_ctx.unprotect_rtcp(srtcp).unwrap();
        assert_eq!(&decrypted, rtcp_orig);
    }

    // Replay any of them — should all fail
    for (_rtcp_orig, srtcp) in &srtcp_packets {
        assert!(recv_ctx.unprotect_rtcp(srtcp).is_err());
    }
}

#[test]
fn test_crypto_attribute_parse_with_mki() {
    let value = "1 AES_CM_128_HMAC_SHA1_80 inline:YUJDZGVmZ2hpamtsbW5vcHFyc3R1dnd4eXoxMjM0|1:4";
    let crypto = CryptoAttribute::parse(value).unwrap();
    assert_eq!(crypto.tag, 1);
    assert!(crypto.mki.is_some());
    assert_eq!(crypto.mki_length, Some(4));
    let mki = crypto.mki.unwrap();
    assert_eq!(mki.len(), 4);
    // MKI value 1 = [0, 0, 0, 1] in 4 bytes
    assert_eq!(mki, vec![0, 0, 0, 1]);
}

#[test]
fn test_crypto_attribute_parse_with_lifetime_and_mki() {
    // lifetime followed by MKI
    let value = "1 AES_CM_128_HMAC_SHA1_80 inline:YUJDZGVmZ2hpamtsbW5vcHFyc3R1dnd4eXoxMjM0|2^31|1:4";
    let crypto = CryptoAttribute::parse(value).unwrap();
    assert_eq!(crypto.tag, 1);
    assert!(crypto.mki.is_some());
    assert_eq!(crypto.mki_length, Some(4));
}

#[test]
fn test_crypto_attribute_no_mki() {
    let value = "1 AES_CM_128_HMAC_SHA1_80 inline:YUJDZGVmZ2hpamtsbW5vcHFyc3R1dnd4eXoxMjM0";
    let crypto = CryptoAttribute::parse(value).unwrap();
    assert!(crypto.mki.is_none());
    assert!(crypto.mki_length.is_none());
}

#[test]
fn test_mki_roundtrip_sdp() {
    // Generate a crypto attribute, set MKI, serialize, re-parse
    let mut crypto = CryptoAttribute::generate(SrtpCipherSuite::AesCm128HmacSha1_80);
    crypto.mki = Some(vec![0, 0, 0, 42]);
    crypto.mki_length = Some(4);

    let sdp = crypto.to_sdp_value();
    assert!(sdp.contains("|42:4"));

    let parsed = CryptoAttribute::parse(&sdp).unwrap();
    assert_eq!(parsed.mki, Some(vec![0, 0, 0, 42]));
    assert_eq!(parsed.mki_length, Some(4));
}

#[test]
fn test_srtp_with_mki_protect_unprotect() {
    let mut crypto = CryptoAttribute::generate(SrtpCipherSuite::AesCm128HmacSha1_80);
    crypto.mki = Some(vec![0x00, 0x01]);
    crypto.mki_length = Some(2);

    let mut send_ctx = SrtpContext::from_crypto(&crypto);
    let mut recv_ctx = SrtpContext::from_crypto(&crypto);

    let mut rtp_packet = vec![0x80, 0x00, 0x00, 0x01];
    rtp_packet.extend_from_slice(&160u32.to_be_bytes());
    rtp_packet.extend_from_slice(&12345u32.to_be_bytes());
    rtp_packet.extend_from_slice(&[0x01, 0x02, 0x03, 0x04, 0x05]);

    let srtp_packet = send_ctx.protect_rtp(&rtp_packet).unwrap();
    assert_eq!(srtp_packet.len(), rtp_packet.len() + 2 + 10);

    let decrypted = recv_ctx.unprotect_rtp(&srtp_packet).unwrap();
    assert_eq!(decrypted, rtp_packet);
}

#[test]
fn test_srtcp_with_mki_protect_unprotect() {
    let mut crypto = CryptoAttribute::generate(SrtpCipherSuite::AesCm128HmacSha1_80);
    crypto.mki = Some(vec![0xAB, 0xCD]);
    crypto.mki_length = Some(2);

    let mut send_ctx = SrtpContext::from_crypto(&crypto);
    let mut recv_ctx = SrtpContext::from_crypto(&crypto);

    let mut rtcp_packet = vec![
        0x80, 0xC8, 0x00, 0x06,
        0x00, 0x00, 0x30, 0x39,
    ];
    rtcp_packet.extend_from_slice(&[0x11; 20]);

    let srtcp_packet = send_ctx.protect_rtcp(&rtcp_packet).unwrap();
    assert_eq!(srtcp_packet.len(), rtcp_packet.len() + 16);

    let decrypted = recv_ctx.unprotect_rtcp(&srtcp_packet).unwrap();
    assert_eq!(decrypted, rtcp_packet);
}

#[test]
fn test_mki_mismatch_corrupts_payload() {
    // Protect with MKI length 2, but receiver expects MKI length 4.
    // The receiver interprets the packet structure differently (strips 4
    // bytes as MKI instead of 2), which causes the authentication check
    // to fail because the auth tag boundary is misaligned.
    let crypto_send = {
        let mut c = CryptoAttribute::generate(SrtpCipherSuite::AesCm128HmacSha1_80);
        c.mki = Some(vec![0x00, 0x01]);
        c.mki_length = Some(2);
        c
    };

    // Receiver has the same key material but different MKI length
    let crypto_recv = CryptoAttribute {
        tag: crypto_send.tag,
        suite: crypto_send.suite,
        master_key: crypto_send.master_key,
        master_salt: crypto_send.master_salt,
        mki: Some(vec![0x00, 0x00, 0x00, 0x01]),
        mki_length: Some(4),
    };

    let mut send_ctx = SrtpContext::from_crypto(&crypto_send);
    let mut recv_ctx = SrtpContext::from_crypto(&crypto_recv);

    let mut rtp_packet = vec![0x80, 0x00, 0x00, 0x01];
    rtp_packet.extend_from_slice(&160u32.to_be_bytes());
    rtp_packet.extend_from_slice(&12345u32.to_be_bytes());
    rtp_packet.extend_from_slice(&[0xAA; 20]);

    let srtp_packet = send_ctx.protect_rtp(&rtp_packet).unwrap();
    // MKI length mismatch causes the receiver to misparse the packet
    // structure, leading to authentication failure.
    let result = recv_ctx.unprotect_rtp(&srtp_packet);
    assert!(result.is_err(), "MKI length mismatch should cause unprotect to fail");
}

#[test]
fn test_different_seq_produces_different_ciphertext() {
    // Key derivation uses the same session keys, but AES-CM uses the packet
    // index (which includes seq) in the IV, so different seq numbers must
    // produce different ciphertext even for identical plaintext payloads.
    let crypto = CryptoAttribute::generate(SrtpCipherSuite::AesCm128HmacSha1_80);
    let mut ctx = SrtpContext::from_crypto(&crypto);

    let payload = [0x42u8; 40];

    let mut rtp1 = vec![0x80, 0x00, 0x00, 0x01]; // seq=1
    rtp1.extend_from_slice(&160u32.to_be_bytes());
    rtp1.extend_from_slice(&12345u32.to_be_bytes());
    rtp1.extend_from_slice(&payload);

    let mut rtp2 = vec![0x80, 0x00, 0x00, 0x02]; // seq=2
    rtp2.extend_from_slice(&320u32.to_be_bytes());
    rtp2.extend_from_slice(&12345u32.to_be_bytes());
    rtp2.extend_from_slice(&payload);

    let srtp1 = ctx.protect_rtp(&rtp1).unwrap();
    let srtp2 = ctx.protect_rtp(&rtp2).unwrap();

    // The encrypted payloads (bytes 12..52) must differ despite identical plaintext
    assert_ne!(&srtp1[12..52], &srtp2[12..52]);
}

#[test]
fn test_large_payload_protect_unprotect() {
    // Protect/unprotect a packet near typical MTU limits.
    // RTP header (12) + payload (1400) + auth tag (10) = 1422, well within
    // UDP MTU of 1500.
    let crypto = CryptoAttribute::generate(SrtpCipherSuite::AesCm128HmacSha1_80);
    let mut send_ctx = SrtpContext::from_crypto(&crypto);
    let mut recv_ctx = SrtpContext::from_crypto(&crypto);

    let mut rtp_packet = vec![0x80, 0x00, 0x00, 0x01];
    rtp_packet.extend_from_slice(&160u32.to_be_bytes());
    rtp_packet.extend_from_slice(&12345u32.to_be_bytes());
    // 1400 bytes of payload — near max for a single UDP packet
    let large_payload: Vec<u8> = (0..1400).map(|i| (i & 0xFF) as u8).collect();
    rtp_packet.extend_from_slice(&large_payload);

    let srtp_packet = send_ctx.protect_rtp(&rtp_packet).unwrap();
    assert_eq!(srtp_packet.len(), rtp_packet.len() + 10);

    let decrypted = recv_ctx.unprotect_rtp(&srtp_packet).unwrap();
    assert_eq!(decrypted, rtp_packet);
}

#[test]
fn test_empty_payload_protect_unprotect() {
    // An RTP packet with zero-length payload is valid (e.g., comfort noise,
    // keepalive). The SRTP layer should handle it: encrypt nothing, but still
    // authenticate the header.
    let crypto = CryptoAttribute::generate(SrtpCipherSuite::AesCm128HmacSha1_80);
    let mut send_ctx = SrtpContext::from_crypto(&crypto);
    let mut recv_ctx = SrtpContext::from_crypto(&crypto);

    // 12-byte RTP header, no payload
    let mut rtp_packet = vec![0x80, 0x00, 0x00, 0x01];
    rtp_packet.extend_from_slice(&160u32.to_be_bytes());
    rtp_packet.extend_from_slice(&12345u32.to_be_bytes());
    assert_eq!(rtp_packet.len(), 12);

    let srtp_packet = send_ctx.protect_rtp(&rtp_packet).unwrap();
    // No payload to encrypt, but auth tag is still appended
    assert_eq!(srtp_packet.len(), 12 + 10);

    let decrypted = recv_ctx.unprotect_rtp(&srtp_packet).unwrap();
    assert_eq!(decrypted, rtp_packet);
}

#[test]
fn test_crypto_attribute_parse_edge_cases() {
    // Empty string
    assert!(CryptoAttribute::parse("").is_err());

    // Only whitespace
    assert!(CryptoAttribute::parse("   ").is_err());

    // Non-numeric tag
    assert!(CryptoAttribute::parse("abc AES_CM_128_HMAC_SHA1_80 inline:YUJDZGVmZ2hpamtsbW5vcHFyc3R1dnd4eXoxMjM0").is_err());

    // Invalid base64 in key material
    assert!(CryptoAttribute::parse("1 AES_CM_128_HMAC_SHA1_80 inline:!!!invalid-base64!!!").is_err());

    // Valid base64 but wrong decoded length (too short)
    assert!(CryptoAttribute::parse("1 AES_CM_128_HMAC_SHA1_80 inline:AQID").is_err());

    assert!(CryptoAttribute::parse("1 AES_CM_128_HMAC_SHA1_80 notinline:YUJDZGVmZ2hpamtsbW5vcHFyc3R1dnd4eXoxMjM0").is_err());

    // MKI with length 0 should be ignored (treated as no MKI)
    let value = "1 AES_CM_128_HMAC_SHA1_80 inline:YUJDZGVmZ2hpamtsbW5vcHFyc3R1dnd4eXoxMjM0|1:0";
    let crypto = CryptoAttribute::parse(value).unwrap();
    assert!(crypto.mki.is_none());
}

#[test]
fn test_roc_wraparound_skip_to_seq_3() {
    // Specific scenario: sender sends seq 65530..65535, then skips directly
    // to seq 3 (packets 0, 1, 2 are lost in transit). The receiver must
    // detect the forward wrap from the gap (65535 -> 3) and bump the ROC.
    let crypto = CryptoAttribute::generate(SrtpCipherSuite::AesCm128HmacSha1_80);
    let mut send_ctx = SrtpContext::from_crypto(&crypto);
    let mut recv_ctx = SrtpContext::from_crypto(&crypto);

    // Phase 1: send and receive seq 65530..65535 to establish state
    for seq in 65530u16..=65535 {
        let mut rtp = vec![0x80, 0x00];
        rtp.extend_from_slice(&seq.to_be_bytes());
        rtp.extend_from_slice(&((seq as u32) * 160).to_be_bytes());
        rtp.extend_from_slice(&12345u32.to_be_bytes());
        rtp.extend_from_slice(&[0xAA; 20]);

        let srtp = send_ctx.protect_rtp(&rtp).unwrap();
        let decrypted = recv_ctx.unprotect_rtp(&srtp).unwrap();
        assert_eq!(decrypted, rtp);
    }

    // Phase 2: sender sends seq 0, 1, 2 (which wraps ROC on the sender)
    // but we do NOT deliver these to the receiver (simulating packet loss).
    for seq in 0u16..=2 {
        let mut rtp = vec![0x80, 0x00];
        rtp.extend_from_slice(&seq.to_be_bytes());
        rtp.extend_from_slice(&((65536u32 + seq as u32) * 160).to_be_bytes());
        rtp.extend_from_slice(&12345u32.to_be_bytes());
        rtp.extend_from_slice(&[0xBB; 20]);
        let _srtp = send_ctx.protect_rtp(&rtp).unwrap();
        // intentionally not delivered
    }

    // Phase 3: receiver gets seq 3 — first packet it sees after 65535.
    // The receiver's estimate_roc must detect the wrap from the gap.
    for seq in 3u16..=5 {
        let mut rtp = vec![0x80, 0x00];
        rtp.extend_from_slice(&seq.to_be_bytes());
        rtp.extend_from_slice(&((65536u32 + seq as u32) * 160).to_be_bytes());
        rtp.extend_from_slice(&12345u32.to_be_bytes());
        rtp.extend_from_slice(&[0xCC; 20]);

        let srtp = send_ctx.protect_rtp(&rtp).unwrap();
        let decrypted = recv_ctx
            .unprotect_rtp(&srtp)
            .expect(&format!("Failed to unprotect seq {} after ROC wrap with gap", seq));
        assert_eq!(decrypted, rtp);
    }
}

#[test]
fn test_aes_cm_iv_salt_xor_at_offset_0() {
    // Construct a known salt and check the IV layout.
    let session_salt: [u8; SRTP_SESSION_SALT_LEN] = [
        0x01, 0x02, 0x03, 0x04, 0x05, 0x06, 0x07,
        0x08, 0x09, 0x0A, 0x0B, 0x0C, 0x0D, 0x0E,
    ];
    let ssrc: u32 = 0xDEADBEEF;
    let index: u64 = 0x0000_0102_0304_0506;

    let mut iv = [0u8; 16];
    iv[4..8].copy_from_slice(&ssrc.to_be_bytes());
    let idx_bytes = index.to_be_bytes();
    iv[8..14].copy_from_slice(&idx_bytes[2..8]);

    for i in 0..SRTP_SESSION_SALT_LEN {
        iv[i] ^= session_salt[i];
    }

    // Verify bytes 0..4 are salt[0..4] XOR 0 = salt[0..4]
    assert_eq!(iv[0], 0x01, "iv[0] should be salt[0] XOR 0x00");
    assert_eq!(iv[1], 0x02, "iv[1] should be salt[1] XOR 0x00");
    assert_eq!(iv[2], 0x03, "iv[2] should be salt[2] XOR 0x00");
    assert_eq!(iv[3], 0x04, "iv[3] should be salt[3] XOR 0x00");

    // Verify bytes 4..8 are salt[4..8] XOR SSRC
    assert_eq!(iv[4], 0x05 ^ 0xDE);
    assert_eq!(iv[5], 0x06 ^ 0xAD);
    assert_eq!(iv[6], 0x07 ^ 0xBE);
    assert_eq!(iv[7], 0x08 ^ 0xEF);

    // Verify bytes 8..14 are salt[8..14] XOR packet_index
    // index = 0x0000_0102_0304_0506, low 6 bytes = [01, 02, 03, 04, 05, 06]
    // 0x0000_0102_0304_0506 as u64 big-endian = [00, 00, 01, 02, 03, 04, 05, 06]
    // low 6 bytes (idx_bytes[2..8]) = [01, 02, 03, 04, 05, 06]
    assert_eq!(iv[8], 0x09 ^ 0x01);
    assert_eq!(iv[9], 0x0A ^ 0x02);
    assert_eq!(iv[10], 0x0B ^ 0x03);
    assert_eq!(iv[11], 0x0C ^ 0x04);
    assert_eq!(iv[12], 0x0D ^ 0x05);
    assert_eq!(iv[13], 0x0E ^ 0x06);

    // Verify bytes 14..16 are untouched (counter space)
    assert_eq!(iv[14], 0x00, "iv[14] must be 0 (counter space)");
    assert_eq!(iv[15], 0x00, "iv[15] must be 0 (counter space)");
}

#[test]
fn test_prf_iv_key_id_xor_at_offset_7() {
    let master_salt: [u8; SRTP_MASTER_SALT_LEN] = [
        0x10, 0x20, 0x30, 0x40, 0x50, 0x60, 0x70,
        0x80, 0x90, 0xA0, 0xB0, 0xC0, 0xD0, 0xE0,
    ];

    // Label 0x00 = cipher key, with r=0 (KDR=0)
    let label: u8 = 0x00;
    let key_id = [label, 0u8, 0, 0, 0, 0, 0]; // 7 bytes

    let mut iv = [0u8; 16];
    iv[..SRTP_MASTER_SALT_LEN].copy_from_slice(&master_salt);
    for i in 0..7 {
        iv[7 + i] ^= key_id[i];
    }

    // With label=0 and r=0, key_id is all zeros, so IV = salt || 0x0000
    assert_eq!(
        &iv[..14], &master_salt[..],
        "With zero key_id, IV[0..14] should equal master_salt"
    );
    assert_eq!(iv[14], 0x00);
    assert_eq!(iv[15], 0x00);

    // Now test with a non-zero label (0x01 = auth key)
    let label2: u8 = 0x01;
    let key_id2 = [label2, 0u8, 0, 0, 0, 0, 0];

    let mut iv2 = [0u8; 16];
    iv2[..SRTP_MASTER_SALT_LEN].copy_from_slice(&master_salt);
    for i in 0..7 {
        iv2[7 + i] ^= key_id2[i];
    }

    // Bytes 0..7 unchanged (salt[0..7])
    for i in 0..7 {
        assert_eq!(iv2[i], master_salt[i], "iv[{}] should be salt[{}] unchanged", i, i);
    }
    // Byte 7 = salt[7] XOR label = 0x80 XOR 0x01 = 0x81
    assert_eq!(iv2[7], 0x80 ^ 0x01, "iv[7] should be salt[7] XOR label");
    // Bytes 8..14 = salt[8..14] XOR 0 = salt[8..14] (r=0)
    for i in 8..14 {
        assert_eq!(iv2[i], master_salt[i], "iv[{}] should be unchanged (r=0)", i);
    }
    assert_eq!(iv2[14], 0x00, "iv[14] must be 0 (counter space)");
    assert_eq!(iv2[15], 0x00, "iv[15] must be 0 (counter space)");
}

#[test]
fn test_roundtrip_after_iv_fixes() {
    let crypto = CryptoAttribute::generate(SrtpCipherSuite::AesCm128HmacSha1_80);
    let mut send_ctx = SrtpContext::from_crypto(&crypto);
    let mut recv_ctx = SrtpContext::from_crypto(&crypto);

    // Send multiple sequential packets and verify roundtrip for each
    for seq in 1u16..=10 {
        let mut rtp = vec![0x80, 0x00];
        rtp.extend_from_slice(&seq.to_be_bytes());
        rtp.extend_from_slice(&((seq as u32) * 160).to_be_bytes()); // timestamp
        rtp.extend_from_slice(&12345u32.to_be_bytes()); // ssrc
        rtp.extend_from_slice(&[0x42; 160]); // audio payload

        let srtp = send_ctx.protect_rtp(&rtp).unwrap();
        // SRTP packet must differ from plaintext (encrypted)
        assert_ne!(
            &srtp[12..12 + 160], &[0x42; 160],
            "payload should be encrypted for seq {}",
            seq
        );

        let decrypted = recv_ctx.unprotect_rtp(&srtp).unwrap();
        assert_eq!(decrypted, rtp, "round-trip failed for seq {}", seq);
    }
}

#[test]
fn test_ssrc_extracted_from_correct_rtp_offset() {
    let crypto = CryptoAttribute::generate(SrtpCipherSuite::AesCm128HmacSha1_80);
    let mut send_ctx = SrtpContext::from_crypto(&crypto);
    let mut recv_ctx = SrtpContext::from_crypto(&crypto);

    // Construct a packet where timestamp and SSRC are intentionally different
    // so that using the wrong offset would produce a different keystream.
    let ssrc: u32 = 0xDEADBEEF;
    let timestamp: u32 = 0x12345678; // Different from SSRC
    let seq: u16 = 1;

    let mut rtp_packet = vec![0x80, 0x00]; // V=2, P=0, X=0, CC=0
    rtp_packet.extend_from_slice(&seq.to_be_bytes()); // bytes 2-3: seq
    rtp_packet.extend_from_slice(&timestamp.to_be_bytes()); // bytes 4-7: timestamp
    rtp_packet.extend_from_slice(&ssrc.to_be_bytes()); // bytes 8-11: SSRC
    rtp_packet.extend_from_slice(&[0xAA; 40]); // payload

    // Protect and unprotect must round-trip correctly when SSRC != timestamp
    let srtp_packet = send_ctx.protect_rtp(&rtp_packet).unwrap();
    let decrypted = recv_ctx.unprotect_rtp(&srtp_packet).unwrap();
    assert_eq!(
        decrypted, rtp_packet,
        "Round-trip failed: SSRC may be read from wrong offset"
    );

    // Also verify that different SSRCs produce different ciphertext for
    // the same payload, confirming SSRC is actually used in encryption.
    let mut send_ctx2 = SrtpContext::from_crypto(&crypto);
    let ssrc2: u32 = 0xCAFEBABE;
    let mut rtp_packet2 = vec![0x80, 0x00];
    rtp_packet2.extend_from_slice(&seq.to_be_bytes());
    rtp_packet2.extend_from_slice(&timestamp.to_be_bytes()); // same timestamp
    rtp_packet2.extend_from_slice(&ssrc2.to_be_bytes()); // different SSRC
    rtp_packet2.extend_from_slice(&[0xAA; 40]); // same payload

    let srtp_packet2 = send_ctx2.protect_rtp(&rtp_packet2).unwrap();
    // Encrypted payloads must differ because SSRC differs (different IV)
    assert_ne!(
        &srtp_packet[12..52],
        &srtp_packet2[12..52],
        "Different SSRCs must produce different ciphertext"
    );
}

#[test]
fn test_srtcp_index_overflow_returns_error() {
    let crypto = CryptoAttribute::generate(SrtpCipherSuite::AesCm128HmacSha1_80);
    let mut ctx = SrtpContext::from_crypto(&crypto);

    // Set the SRTCP index just below the overflow boundary
    ctx.srtcp_index = 0x7FFFFFFF;

    let rtcp_packet = vec![
        0x80, 0xC8, 0x00, 0x06, // V=2, PT=200 (SR), length=6
        0x00, 0x00, 0x30, 0x39, // SSRC=12345
        0x11, 0x22, 0x33, 0x44, 0x55, 0x66, 0x77, 0x88, // SR body
        0x99, 0xAA, 0xBB, 0xCC, 0xDD, 0xEE, 0xFF, 0x00,
        0x11, 0x22, 0x33, 0x44,
    ];

    // This should succeed (index = 0x7FFFFFFF, the last valid value)
    let result = ctx.protect_rtcp(&rtcp_packet);
    assert!(result.is_ok(), "protect_rtcp should succeed at max index 0x7FFFFFFF");

    // Now srtcp_index is 0x80000000, which exceeds the 31-bit space
    assert_eq!(ctx.srtcp_index, 0x80000000);

    // Next protect_rtcp call must fail
    let result = ctx.protect_rtcp(&rtcp_packet);
    assert!(
        result.is_err(),
        "protect_rtcp must fail when SRTCP index exceeds 31-bit space"
    );
    let err_msg = result.unwrap_err().message();
    assert!(
        err_msg.contains("SRTCP index overflow"),
        "Error message should mention SRTCP index overflow, got: {}",
        err_msg
    );
}

#[test]
fn test_replay_window_128_packets() {
    // Verify that the replay window accepts packets up to 127
    // positions behind the highest seen index (128-bit window).
    let crypto = CryptoAttribute::generate(SrtpCipherSuite::AesCm128HmacSha1_80);
    let mut send_ctx = SrtpContext::from_crypto(&crypto);
    let mut recv_ctx = SrtpContext::from_crypto(&crypto);

    // Protect packets 1..=200 but only deliver packet 200 first
    let mut protected = Vec::new();
    for seq in 1u16..=200 {
        let mut rtp = vec![0x80, 0x00];
        rtp.extend_from_slice(&seq.to_be_bytes());
        rtp.extend_from_slice(&((seq as u32) * 160).to_be_bytes());
        rtp.extend_from_slice(&42u32.to_be_bytes());
        rtp.extend_from_slice(&[seq as u8; 20]);
        let srtp = send_ctx.protect_rtp(&rtp).unwrap();
        protected.push((seq, rtp, srtp));
    }

    // Deliver packet 200 first (establishes replay_window_base = 200)
    let d200 = recv_ctx.unprotect_rtp(&protected[199].2).unwrap();
    assert_eq!(d200, protected[199].1);

    // Packet at index 200-127 = 73 should still be accepted (within 128-bit window)
    let d73 = recv_ctx.unprotect_rtp(&protected[72].2).unwrap();
    assert_eq!(d73, protected[72].1);

    // Packet at index 200-128 = 72 is one position too old
    assert!(recv_ctx.unprotect_rtp(&protected[71].2).is_err());

    // Packet at index 200-100 = 100 should be accepted (well within window)
    let d100 = recv_ctx.unprotect_rtp(&protected[99].2).unwrap();
    assert_eq!(d100, protected[99].1);
}

#[test]
fn test_non_monotonic_send_rejected() {
    // Sending the same sequence number twice must fail.
    let crypto = CryptoAttribute::generate(SrtpCipherSuite::AesCm128HmacSha1_80);
    let mut ctx = SrtpContext::from_crypto(&crypto);

    let mut rtp1 = vec![0x80, 0x00, 0x00, 0x05]; // seq=5
    rtp1.extend_from_slice(&800u32.to_be_bytes());
    rtp1.extend_from_slice(&42u32.to_be_bytes());
    rtp1.extend_from_slice(&[0xAA; 20]);

    // First send at seq=5 should succeed
    assert!(ctx.protect_rtp(&rtp1).is_ok());

    // Second send at seq=5 (same index) should fail
    let result = ctx.protect_rtp(&rtp1);
    assert!(result.is_err());
    let err = result.unwrap_err().message();
    assert!(err.contains("non-monotonic"), "Error should mention non-monotonic, got: {}", err);

    // Sending at seq=4 (backward) should also fail
    let mut rtp_back = vec![0x80, 0x00, 0x00, 0x04]; // seq=4
    rtp_back.extend_from_slice(&640u32.to_be_bytes());
    rtp_back.extend_from_slice(&42u32.to_be_bytes());
    rtp_back.extend_from_slice(&[0xBB; 20]);
    assert!(ctx.protect_rtp(&rtp_back).is_err());

    // Sending at seq=6 (forward) should succeed
    let mut rtp_fwd = vec![0x80, 0x00, 0x00, 0x06]; // seq=6
    rtp_fwd.extend_from_slice(&960u32.to_be_bytes());
    rtp_fwd.extend_from_slice(&42u32.to_be_bytes());
    rtp_fwd.extend_from_slice(&[0xCC; 20]);
    assert!(ctx.protect_rtp(&rtp_fwd).is_ok());
}

#[test]
fn test_key_lifetime_enforcement() {
    // After 2^48 packets, protect_rtp must return an error.
    let crypto = CryptoAttribute::generate(SrtpCipherSuite::AesCm128HmacSha1_80);
    let mut ctx = SrtpContext::from_crypto(&crypto);

    // Set packets_encrypted just below the limit
    ctx.packets_encrypted = (1u64 << 48) - 1;

    let mut rtp = vec![0x80, 0x00, 0x00, 0x01];
    rtp.extend_from_slice(&160u32.to_be_bytes());
    rtp.extend_from_slice(&42u32.to_be_bytes());
    rtp.extend_from_slice(&[0xAA; 20]);

    // This should succeed (the last allowed packet)
    assert!(ctx.protect_rtp(&rtp).is_ok());

    // Now packets_encrypted == 2^48, next call must fail
    assert_eq!(ctx.packets_encrypted, 1u64 << 48);

    let mut rtp2 = vec![0x80, 0x00, 0x00, 0x02];
    rtp2.extend_from_slice(&320u32.to_be_bytes());
    rtp2.extend_from_slice(&42u32.to_be_bytes());
    rtp2.extend_from_slice(&[0xBB; 20]);

    let result = ctx.protect_rtp(&rtp2);
    assert!(result.is_err());
    let err = result.unwrap_err().message();
    assert!(err.contains("key lifetime"), "Error should mention key lifetime, got: {}", err);
}

#[test]
fn test_replay_does_not_inflate_error_count() {
    // Replay rejections should NOT increment error_count.
    let crypto = CryptoAttribute::generate(SrtpCipherSuite::AesCm128HmacSha1_80);
    let mut send_ctx = SrtpContext::from_crypto(&crypto);
    let mut recv_ctx = SrtpContext::from_crypto(&crypto);

    let mut rtp = vec![0x80, 0x00, 0x00, 0x01];
    rtp.extend_from_slice(&160u32.to_be_bytes());
    rtp.extend_from_slice(&42u32.to_be_bytes());
    rtp.extend_from_slice(&[0xAA; 20]);

    let srtp = send_ctx.protect_rtp(&rtp).unwrap();

    // First unprotect succeeds, error count stays 0
    let _ = recv_ctx.unprotect_rtp(&srtp).unwrap();
    assert_eq!(recv_ctx.error_count(), 0);

    // Replay the same packet multiple times — error count should stay 0
    for _ in 0..20 {
        let _ = recv_ctx.unprotect_rtp(&srtp);
    }
    assert_eq!(recv_ctx.error_count(), 0, "Replay rejections should not increment error count");
}

#[test]
fn test_ssrc_change_resets_receiver_state() {
    // When SSRC changes, replay window and ROC should reset.
    let crypto = CryptoAttribute::generate(SrtpCipherSuite::AesCm128HmacSha1_80);
    let mut send_ctx = SrtpContext::from_crypto(&crypto);
    let mut recv_ctx = SrtpContext::from_crypto(&crypto);

    let ssrc1: u32 = 12345;
    let ssrc2: u32 = 67890;

    // Send/receive several packets with SSRC1
    for seq in 1u16..=10 {
        let mut rtp = vec![0x80, 0x00];
        rtp.extend_from_slice(&seq.to_be_bytes());
        rtp.extend_from_slice(&((seq as u32) * 160).to_be_bytes());
        rtp.extend_from_slice(&ssrc1.to_be_bytes());
        rtp.extend_from_slice(&[0xAA; 20]);
        let srtp = send_ctx.protect_rtp(&rtp).unwrap();
        let decrypted = recv_ctx.unprotect_rtp(&srtp).unwrap();
        assert_eq!(decrypted, rtp);
    }

    let mut send_ctx2 = SrtpContext::from_crypto(&crypto);
    let mut rtp_new = vec![0x80, 0x00, 0x00, 0x01]; // seq=1
    rtp_new.extend_from_slice(&160u32.to_be_bytes());
    rtp_new.extend_from_slice(&ssrc2.to_be_bytes());
    rtp_new.extend_from_slice(&[0xBB; 20]);
    let srtp_new = send_ctx2.protect_rtp(&rtp_new).unwrap();
    let decrypted = recv_ctx.unprotect_rtp(&srtp_new).unwrap();
    assert_eq!(decrypted, rtp_new, "Packet with new SSRC should be accepted after state reset");
}

#[test]
fn test_generic_error_message_for_replay_and_auth() {
    // Both replay and auth failures should return the same
    // generic error message to prevent information leakage.
    let crypto = CryptoAttribute::generate(SrtpCipherSuite::AesCm128HmacSha1_80);
    let mut send_ctx = SrtpContext::from_crypto(&crypto);
    let mut recv_ctx = SrtpContext::from_crypto(&crypto);

    // Get a valid packet
    let mut rtp = vec![0x80, 0x00, 0x00, 0x01];
    rtp.extend_from_slice(&160u32.to_be_bytes());
    rtp.extend_from_slice(&42u32.to_be_bytes());
    rtp.extend_from_slice(&[0xAA; 20]);
    let srtp = send_ctx.protect_rtp(&rtp).unwrap();

    // Accept it first
    let _ = recv_ctx.unprotect_rtp(&srtp).unwrap();

    // Replay it — should get generic error
    let replay_err = recv_ctx.unprotect_rtp(&srtp).unwrap_err().message();

    let mut rtp2 = vec![0x80, 0x00, 0x00, 0x02];
    rtp2.extend_from_slice(&320u32.to_be_bytes());
    rtp2.extend_from_slice(&42u32.to_be_bytes());
    rtp2.extend_from_slice(&[0xBB; 20]);
    let mut srtp2 = send_ctx.protect_rtp(&rtp2).unwrap();
    srtp2[12] ^= 0xFF; // tamper
    let auth_err = recv_ctx.unprotect_rtp(&srtp2).unwrap_err().message();

    // Both should be the same generic message
    assert_eq!(replay_err, auth_err,
        "Replay and auth errors should be indistinguishable: replay='{}', auth='{}'",
        replay_err, auth_err
    );
    assert!(replay_err.contains("SRTP packet rejected"),
        "Error should say 'SRTP packet rejected', got: '{}'", replay_err);
}

const KEY: [u8; 16] = [0xE1, 0xF9, 0x7A, 0x0D, 0x3E, 0x01, 0x8B, 0xE0, 0xD6, 0x4F, 0xA3, 0x2C, 0x06, 0xDE, 0x41, 0x39];
const SALT: [u8; 14] = [0x0E, 0xC6, 0x75, 0xAD, 0x49, 0x8A, 0xFE, 0xEB, 0xB6, 0x96, 0x0B, 0x3A, 0xAB, 0xE6];

#[test]
fn derived_keys_are_exact() {
    let keys = derive_session_keys(&KEY, &SALT, false, 0, 0);
    assert_eq!(keys.enc_key, [0xC6, 0x1E, 0x7A, 0x93, 0x74, 0x4F, 0x39, 0xEE, 0x10, 0x73, 0x4A, 0xFE, 0x3F, 0xF7, 0xA0, 0x87]);
    assert_eq!(keys.salt, [0x30, 0xCB, 0xBC, 0x08, 0x86, 0x3D, 0x8C, 0x85, 0xD4, 0x9D, 0xB3, 0x4A, 0x9A, 0xE1]);
    assert_eq!(keys.auth_key, [0xCE, 0xBE, 0x32, 0x1F, 0x6F, 0xF7, 0x71, 0x6B, 0x6F, 0xD4, 0xAB, 0x49, 0xAF, 0x25, 0x6A, 0x15, 0x6D, 0x38, 0xBA, 0xA4]);
    assert_eq!(prf_derive(&KEY, &SALT, 0, 0, 4), vec![0xC6, 0x1E, 0x7A, 0x93]);
}

#[test]
fn the_key_stream_is_exact() {
    let key = [0x2B, 0x7E, 0x15, 0x16, 0x28, 0xAE, 0xD2, 0xA6, 0xAB, 0xF7, 0x15, 0x88, 0x09, 0xCF, 0x4F, 0x3C];
    let salt = [0xF0, 0xF1, 0xF2, 0xF3, 0xF4, 0xF5, 0xF6, 0xF7, 0xF8, 0xF9, 0xFA, 0xFB, 0xFC, 0xFD];
    let mut data = [0u8; 16];
    aes_cm_encrypt(&key, &salt, 0, 0, &mut data);
    assert_eq!(data, [0xE0, 0x3E, 0xAD, 0x09, 0x35, 0xC9, 0x5E, 0x80, 0xE1, 0x66, 0xB1, 0x6D, 0xD9, 0x2B, 0x4E, 0xB4]);
    let mut same = [0u8; 16];
    aes_cm_encrypt_srtcp(&key, &salt, 0, 0, &mut same);
    assert_eq!(same, data);
    aes_cm_encrypt(&key, &salt, 0, 0, &mut data);
    assert_eq!(data, [0u8; 16]);
}

#[test]
fn the_tag_is_exact() {
    let mut ctx = SrtpContext::new(SrtpCipherSuite::AesCm128HmacSha1_80, KEY, SALT);
    let packet = [0x80, 0x00, 0x00, 0x01, 0x00, 0x00, 0x00, 0xA0, 0x00, 0x00, 0x30, 0x39];
    let out = ctx.protect_rtp(&packet).unwrap();
    assert_eq!(&out[..12], &packet);
    assert_eq!(&out[12..], &[0x1C, 0x3C, 0xDC, 0x79, 0x75, 0xFE, 0x2C, 0x8A, 0x49, 0x59]);
}

#[test]
fn short_packets_are_refused_in_words() {
    let mut ctx = SrtpContext::new(SrtpCipherSuite::AesCm128HmacSha1_80, KEY, SALT);
    assert_eq!(ctx.protect_rtp(&[0x80; 4]).unwrap_err().message(), "RTP error: RTP packet too short");
    assert!(ctx.protect_rtcp(&[0x80; 4]).is_err());
    assert!(ctx.unprotect_rtp(&[0x80; 4]).is_err());
    assert!(ctx.unprotect_rtcp(&[0x80; 4]).is_err());
}

#[test]
fn suites_have_names_and_tags() {
    for s in [SrtpCipherSuite::AesCm128HmacSha1_80, SrtpCipherSuite::AesCm128HmacSha1_32] {
        assert_eq!(SrtpCipherSuite::from_str(s.as_str()), Some(s));
        assert_eq!(s.rtcp_auth_tag_len(), 10);
    }
    assert_eq!(SrtpCipherSuite::AesCm128HmacSha1_32.rtp_auth_tag_len(), 4);
    assert_eq!(SrtpCipherSuite::from_str("AES_256"), None);
}

#[test]
fn key_material_is_written_in_base64() {
    let value = "1 AES_CM_128_HMAC_SHA1_80 inline:YUJDZGVmZ2hpamtsbW5vcHFyc3R1dnd4eXoxMjM0";
    let crypto = CryptoAttribute::parse(value).unwrap();
    assert_eq!(&crypto.master_key, b"aBCdefghijklmnop");
    assert_eq!(&crypto.master_salt, b"qrstuvwxyz1234");
    assert_eq!(crypto.to_sdp_value(), value);
}

#[test]
fn generated_keys_differ() {
    let a = CryptoAttribute::generate(SrtpCipherSuite::AesCm128HmacSha1_80);
    let b = CryptoAttribute::generate(SrtpCipherSuite::AesCm128HmacSha1_80);
    assert_eq!(a.tag, 1);
    assert_ne!(a.master_key, b.master_key);
}

#[test]
fn wiping_leaves_no_key() {
    let mut ctx = SrtpContext::new(SrtpCipherSuite::AesCm128HmacSha1_80, KEY, SALT);
    ctx.wipe();
    assert_eq!(ctx.master_key, [0; 16]);
    assert_eq!(ctx.rtp_keys.auth_key, [0; 20]);
    assert_eq!(ctx.rtcp_keys.enc_key, [0; 16]);
}

#[test]
fn windows_forget_what_is_too_old() {
    let mut ctx = SrtpContext::new(SrtpCipherSuite::AesCm128HmacSha1_80, KEY, SALT);
    ctx.accept_replay(500);
    assert!(!ctx.check_replay(500));
    assert!(ctx.check_replay(501));
    assert!(ctx.check_replay(373));
    assert!(!ctx.check_replay(372));
    ctx.accept_srtcp_replay(100);
    assert!(!ctx.check_srtcp_replay(100));
    assert!(ctx.check_srtcp_replay(37));
    assert!(!ctx.check_srtcp_replay(36));
}

fn packet_at(place: u64) -> Vec<u8> {
    let mut rtp = vec![0x80, 0x00];
    rtp.extend_from_slice(&((place % 65536) as u16).to_be_bytes());
    rtp.extend_from_slice(&((place * 160) as u32).to_be_bytes());
    rtp.extend_from_slice(&7u32.to_be_bytes());
    rtp.extend_from_slice(&place.to_be_bytes());
    rtp
}

#[test]
fn long_losses_do_not_stop_a_stream() {
    let mut sender = SrtpContext::new(SrtpCipherSuite::AesCm128HmacSha1_80, KEY, SALT);
    let mut receiver = SrtpContext::new(SrtpCipherSuite::AesCm128HmacSha1_80, KEY, SALT);
    for n in 0..250u64 {
        let rtp = packet_at(10 + n * 1000);
        let sealed = sender.protect_rtp(&rtp).unwrap();
        if n % 32 == 0 {
            assert_eq!(receiver.unprotect_rtp(&sealed).unwrap(), rtp);
        }
    }
    assert_eq!(receiver.roc, 3);
}

#[test]
fn half_a_period_is_placed_unless_the_numbers_wrap() {
    let opens = |first: u64| {
        let mut sender = SrtpContext::new(SrtpCipherSuite::AesCm128HmacSha1_80, KEY, SALT);
        let mut receiver = SrtpContext::new(SrtpCipherSuite::AesCm128HmacSha1_80, KEY, SALT);
        let sealed = sender.protect_rtp(&packet_at(first)).unwrap();
        assert_eq!(receiver.unprotect_rtp(&sealed).unwrap(), packet_at(first));
        let _lost = sender.protect_rtp(&packet_at(first + 0x6000)).unwrap();
        let sealed = sender.protect_rtp(&packet_at(first + 0x8000)).unwrap();
        receiver.unprotect_rtp(&sealed).is_ok()
    };
    assert!(opens(0x10));
    assert!(opens(0x7FFF));
    assert!(!opens(0x9000));
}
