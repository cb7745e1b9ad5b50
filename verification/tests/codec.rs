//! Companding.

use rtpsip::error::RtpSipError;
use rtpsip::rtp::{CodecType, G711Codec};

#[test]
fn test_ulaw_roundtrip() {
    let codec = G711Codec::new(CodecType::Pcmu);

    // Test various sample values
    let samples: Vec<i16> = vec![0, 100, 1000, 10000, 32000, -100, -1000, -10000, -32000];
    let encoded = codec.encode(&samples);
    let decoded = codec.decode(&encoded);

    // lossy, but close
    for (orig, dec) in samples.iter().zip(decoded.iter()) {
        let diff = (*orig as i32 - *dec as i32).abs();
        // Allow up to ~3% error for non-zero values
        if *orig != 0 {
            assert!(
                diff < orig.abs() as i32 / 10 + 100,
                "orig={}, dec={}, diff={}",
                orig,
                dec,
                diff
            );
        }
    }
}

#[test]
fn test_alaw_roundtrip() {
    let codec = G711Codec::new(CodecType::Pcma);

    let samples: Vec<i16> = vec![0, 100, 1000, 10000, 32000, -100, -1000, -10000, -32000];
    let encoded = codec.encode(&samples);
    let decoded = codec.decode(&encoded);

    for (orig, dec) in samples.iter().zip(decoded.iter()) {
        let diff = (*orig as i32 - *dec as i32).abs();
        if *orig != 0 {
            assert!(
                diff < orig.abs() as i32 / 10 + 100,
                "orig={}, dec={}, diff={}",
                orig,
                dec,
                diff
            );
        }
    }
}

#[test]
fn test_codec_type_from_str() {
    assert_eq!(CodecType::from_str("PCMU").unwrap(), CodecType::Pcmu);
    assert_eq!(CodecType::from_str("pcmu").unwrap(), CodecType::Pcmu);
    assert_eq!(CodecType::from_str("ULAW").unwrap(), CodecType::Pcmu);
    assert_eq!(CodecType::from_str("PCMA").unwrap(), CodecType::Pcma);
    assert_eq!(CodecType::from_str("alaw").unwrap(), CodecType::Pcma);
    assert!(CodecType::from_str("OPUS").is_err());
}

#[test]
fn test_payload_type() {
    assert_eq!(CodecType::Pcmu.payload_type(), 0);
    assert_eq!(CodecType::Pcma.payload_type(), 8);
}

#[test]
fn test_is_silence_frame_all_silence() {
    let ulaw = G711Codec::new(CodecType::Pcmu);
    let alaw = G711Codec::new(CodecType::Pcma);

    // All mu-law silence
    let ulaw_silence = vec![0xFFu8; 160];
    assert!(ulaw.is_silence_frame(&ulaw_silence));

    // All A-law silence
    let alaw_silence = vec![0xD5u8; 160];
    assert!(alaw.is_silence_frame(&alaw_silence));

    // Negative zero variants
    let ulaw_neg_silence = vec![0x7Fu8; 160];
    assert!(ulaw.is_silence_frame(&ulaw_neg_silence));

    let alaw_neg_silence = vec![0x55u8; 160];
    assert!(alaw.is_silence_frame(&alaw_neg_silence));
}

#[test]
fn test_is_silence_frame_not_silence() {
    let ulaw = G711Codec::new(CodecType::Pcmu);

    // Random non-silence data
    let data: Vec<u8> = (0..160).map(|i| (i % 128) as u8).collect();
    assert!(!ulaw.is_silence_frame(&data));
}

#[test]
fn test_is_silence_frame_threshold_95() {
    let ulaw = G711Codec::new(CodecType::Pcmu);

    // 94% silence -- should NOT be detected (threshold is >=95%)
    let mut data = vec![0xFFu8; 94];
    data.extend(vec![0x00u8; 6]);
    assert_eq!(data.len(), 100);
    assert!(
        !ulaw.is_silence_frame(&data),
        "94% silence should NOT trigger detection at 95% threshold"
    );

    // 95% silence -- should be detected
    let mut data = vec![0xFFu8; 95];
    data.extend(vec![0x00u8; 5]);
    assert_eq!(data.len(), 100);
    assert!(
        ulaw.is_silence_frame(&data),
        "95% silence should trigger detection at 95% threshold"
    );
}

#[test]
fn test_is_silence_frame_90_percent_not_enough() {
    let ulaw = G711Codec::new(CodecType::Pcmu);

    let mut data = vec![0xFFu8; 90];
    data.extend(vec![0x00u8; 10]);
    assert_eq!(data.len(), 100);
    assert!(
        !ulaw.is_silence_frame(&data),
        "90% silence should NOT trigger detection at 95% threshold"
    );
}

#[test]
fn test_is_silence_frame_empty() {
    let codec = G711Codec::new(CodecType::Pcmu);
    assert!(codec.is_silence_frame(&[]));
}

#[test]
fn test_silence_byte() {
    let ulaw = G711Codec::new(CodecType::Pcmu);
    assert_eq!(ulaw.silence_byte(), 0xFF);

    let alaw = G711Codec::new(CodecType::Pcma);
    assert_eq!(alaw.silence_byte(), 0xD5);
}

#[test]
fn an_unknown_codec_is_named_in_the_error() {
    let e = CodecType::from_str("OPUS").unwrap_err();
    assert!(matches!(e, RtpSipError::Codec(_)));
    assert_eq!(e.message(), "Codec error: Unsupported codec: OPUS. Use PCMU or PCMA");
}

#[test]
fn mu_law_bytes_are_exact() {
    let codec = G711Codec::new(CodecType::Pcmu);
    assert_eq!(codec.encode(&[0, 1000, -1000, 32767, -32768]), vec![0xFF, 0xCE, 0x4E, 0x80, 0x00]);
    assert_eq!(codec.decode(&[0xFF, 0xCE, 0x4E, 0x80, 0x00]), vec![0, 988, -988, 32124, -32124]);
}

#[test]
fn a_law_bytes_are_exact() {
    let codec = G711Codec::new(CodecType::Pcma);
    assert_eq!(codec.decode(&[0xD5, 0x55]), vec![8, -8]);
    assert_eq!(codec.decode(&[0xAA, 0x2A]), vec![32256, -32256]);
    assert_eq!(codec.encode(&[8, -8, 32256, -32256]), vec![0xD5, 0x55, 0xAA, 0x2A]);
}

#[test]
fn decoding_then_encoding_gives_the_byte_back() {
    for c in [CodecType::Pcmu, CodecType::Pcma] {
        let codec = G711Codec::new(c);
        for b in 0..=255u8 {
            if c == CodecType::Pcmu && b == 0x7F {
                continue;
            }
            let samples = codec.decode(&[b]);
            assert_eq!(codec.encode(&samples), vec![b]);
        }
    }
}

#[test]
fn a_frame_counts_its_samples() {
    assert_eq!(CodecType::Pcmu.samples_per_frame(20), 160);
    assert_eq!(CodecType::Pcma.samples_per_frame(30), 240);
    assert_eq!(CodecType::Pcmu.sdp_name(), "PCMU");
    assert_eq!(CodecType::Pcma.sdp_name(), "PCMA");
}
