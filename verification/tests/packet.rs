//! RTP packets.

use rtpsip::error::RtpSipError;
use rtpsip::rtp::packet::rtp_extension_fits;
use rtpsip::rtp::{parse_rtp_packet, serialize_rtp_packet, RtpPacketBuilder};

#[test]
fn test_packet_builder() {
    let mut builder = RtpPacketBuilder::with_initial(0, 0x12345678, 0, 0);

    let packet1 = builder.build(vec![0xFF; 160], 160);
    assert_eq!(packet1.header.sequence_number, 0);
    assert_eq!(packet1.header.timestamp, 0);
    assert_eq!(packet1.header.ssrc, 0x12345678);
    assert_eq!(packet1.header.payload_type, 0);

    let packet2 = builder.build(vec![0xFF; 160], 160);
    assert_eq!(packet2.header.sequence_number, 1);
    assert_eq!(packet2.header.timestamp, 160);

    let packet3 = builder.build(vec![0xFF; 160], 160);
    assert_eq!(packet3.header.sequence_number, 2);
    assert_eq!(packet3.header.timestamp, 320);
}

#[test]
fn test_packet_serialize_parse_roundtrip() {
    let mut builder = RtpPacketBuilder::with_initial(0, 0x12345678, 12345, 0xABCDEF00);
    let payload = vec![0xFF; 160];
    let sent = builder.build(payload.clone(), 160);

    let serialized = serialize_rtp_packet(&sent).unwrap();
    let parsed = parse_rtp_packet(&serialized).unwrap();

    assert_eq!(parsed.header.version, 2);
    assert_eq!(parsed.header.payload_type, 0);
    assert_eq!(parsed.header.sequence_number, 12345);
    assert_eq!(parsed.header.timestamp, 0xABCDEF00);
    assert_eq!(parsed.header.ssrc, 0x12345678);
    assert_eq!(parsed.payload, payload);
}

#[test]
fn test_packet_with_marker() {
    let mut builder = RtpPacketBuilder::with_initial(0, 0x12345678, 0, 0);
    let packet = builder.build_with_marker(vec![0xFF; 160], 160, true);

    assert!(packet.header.marker);

    let serialized = serialize_rtp_packet(&packet).unwrap();
    let parsed = parse_rtp_packet(&serialized).unwrap();

    assert!(parsed.header.marker);
}

#[test]
fn sequence_and_timestamp_wrap() {
    let mut builder = RtpPacketBuilder::with_initial(8, 7, 0xFFFF, 0xFFFF_FFF0);
    let p = builder.build(vec![1], 160);
    assert_eq!(p.header.sequence_number, 0xFFFF);
    assert_eq!(builder.sequence(), 0);
    assert_eq!(builder.timestamp(), 144);
    assert_eq!(builder.next_sequence(), 0);
    assert_eq!(builder.sequence(), 1);
    builder.set_sequence(40);
    assert_eq!(builder.sequence(), 40);
    assert_eq!(builder.ssrc(), 7);
}

#[test]
fn the_wire_form_is_exact() {
    let mut builder = RtpPacketBuilder::with_initial(8, 0x01020304, 0x0506, 0x0708090A);
    let p = builder.build_with_marker(vec![0xAB, 0xCD], 160, true);
    let bytes = serialize_rtp_packet(&p).unwrap();
    assert_eq!(bytes, vec![0x80, 0x88, 5, 6, 7, 8, 9, 10, 1, 2, 3, 4, 0xAB, 0xCD]);
}

#[test]
fn short_data_does_not_parse() {
    let e = parse_rtp_packet(&[0x80, 0, 0]).unwrap_err();
    assert!(matches!(e, RtpSipError::Rtp(_)));
    assert!(e.message().starts_with("RTP error: Failed to parse RTP packet: "));
}

#[test]
fn contributing_sources_come_back() {
    let mut builder = RtpPacketBuilder::with_initial(0, 1, 2, 3);
    let mut p = builder.build(vec![9, 9], 160);
    p.header.csrc = vec![0xA0B0C0D0, 5];
    let back = parse_rtp_packet(&serialize_rtp_packet(&p).unwrap()).unwrap();
    assert_eq!(back.header.csrc, vec![0xA0B0C0D0, 5]);
    assert_eq!(back.payload, vec![9, 9]);
}

#[test]
fn padding_is_taken_off() {
    let data = [0xA0, 0, 0, 1, 0, 0, 0, 2, 0, 0, 0, 3, 0x11, 0x22, 0, 2];
    assert!(rtp_extension_fits(&data));
    let p = parse_rtp_packet(&data).unwrap();
    assert!(p.header.padding);
    assert_eq!(p.payload, vec![0x11, 0x22]);
}

#[test]
fn an_extension_is_read() {
    let data = [
        0x90, 0, 0, 1, 0, 0, 0, 2, 0, 0, 0, 3, 0xBE, 0xDE, 0, 1, 0x51, 0xAA, 0xBB, 0x00, 0x77,
    ];
    assert!(rtp_extension_fits(&data));
    let p = parse_rtp_packet(&data).unwrap();
    assert!(p.header.extension);
    assert_eq!(p.header.extension_profile, 0xBEDE);
    assert_eq!(p.header.extensions.len(), 1);
    assert_eq!(p.header.extensions[0].id, 5);
    assert_eq!(p.header.extensions[0].payload, vec![0xAA, 0xBB]);
    assert_eq!(p.payload, vec![0x77]);
    assert_eq!(serialize_rtp_packet(&p).unwrap(), data.to_vec());
}

#[test]
fn an_extension_that_runs_over_its_end_is_told() {
    let data = [0x90, 0, 0, 1, 0, 0, 0, 2, 0, 0, 0, 3, 0xBE, 0xDE, 0, 1, 0x5F, 0xAA, 0xBB, 0x00];
    assert!(!rtp_extension_fits(&data));
}
