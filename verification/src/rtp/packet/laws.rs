//! Where everything stands in a packet, and how packets follow each other.

use crate::rtp::packet;
use crate::rtp::packet::{PacketModel, RtpPacketBuilder};
use crate::wire;
use vstd::prelude::*;

verus! {

/// The wire form of a packet: version and number of sources, marker and payload
/// type, sequence number, timestamp, source, further sources, and the payload.
pub proof fn law_wire_form(m: PacketModel)
    requires
        packet::is_plain(m),
    ensures
        ({
            let d = packet::plain_bytes(m);
            let n = m.header.csrc.len() as int;
            &&& d.len() == 12 + 4 * n + m.payload.len()
            &&& d[0] == 64 * m.header.version + n
            &&& d[1] == m.header.payload_type + if m.header.marker {
                128int
            } else {
                0
            }
            &&& wire::number(d.subrange(2, 4)) == m.header.sequence_number
            &&& wire::number(d.subrange(4, 8)) == m.header.timestamp
            &&& wire::number(d.subrange(8, 12)) == m.header.ssrc
            &&& forall|i: int|
                0 <= i < n ==> wire::number(d.subrange(12 + 4 * i, 16 + 4 * i))
                    == #[trigger] m.header.csrc[i]
            &&& d.skip(12 + 4 * n) == m.payload
        }),
{
    let h = m.header;
    let d = packet::plain_bytes(m);
    let n = h.csrc.len() as int;
    packet::lemma_words_of(h.csrc);
    wire::law_bytes_stand_for_number(h.sequence_number, h.timestamp, 0);
    wire::law_bytes_stand_for_number(h.sequence_number, h.ssrc, 0);
    assert(d.subrange(2, 4) =~= wire::be16(h.sequence_number));
    assert(d.subrange(4, 8) =~= wire::be32(h.timestamp));
    assert(d.subrange(8, 12) =~= wire::be32(h.ssrc));
    assert(d.skip(12 + 4 * n) =~= m.payload);
    assert forall|i: int| 0 <= i < n implies wire::number(d.subrange(12 + 4 * i, 16 + 4 * i))
        == #[trigger] h.csrc[i] by {
        wire::law_bytes_stand_for_number(0, h.csrc[i], 0);
        assert(d.subrange(12 + 4 * i, 16 + 4 * i) =~= packet::words_of(h.csrc).subrange(
            4 * i,
            4 * i + 4,
        ));
        assert(packet::words_of(h.csrc).subrange(4 * i, 4 * i + 4) == wire::be32(h.csrc[i]));
    }
}

/// A packet is read from its places; padding, which its last byte counts, is not
/// part of the payload.
pub proof fn law_packet_read(d: Seq<u8>)
    requires
        d.len() >= 12,
        d[0] as int / 16 % 2 == 0,
    ensures
        ({
            let off = 12 + 4 * (d[0] as int % 16);
            let padded = d[0] as int / 32 % 2 == 1;
            match packet::plain_packet(d) {
                None => d.len() < off || padded && (d.len() == off || d.last() > d.len() - off),
                Some(p) => {
                    &&& d.len() >= off
                    &&& p.header.version == d[0] as int / 64
                    &&& p.header.padding == padded
                    &&& p.header.marker <==> d[1] >= 128
                    &&& p.header.payload_type == d[1] as int % 128
                    &&& p.header.sequence_number == wire::number(d.subrange(2, 4))
                    &&& p.header.timestamp == wire::number(d.subrange(4, 8))
                    &&& p.header.ssrc == wire::number(d.subrange(8, 12))
                    &&& p.header.csrc.len() == d[0] as int % 16
                    &&& !padded ==> p.payload == d.skip(off)
                    &&& padded ==> p.payload == d.subrange(off, d.len() - d.last())
                },
            }
        }),
{
    wire::law_read_number(d, 2);
    wire::law_read_number(d, 4);
    wire::law_read_number(d, 8);
    let off = 12 + 4 * (d[0] as int % 16);
    if d.len() >= off {
        let rest = d.subrange(off, d.len() as int);
        assert(rest =~= d.skip(off));
        if d.len() > off {
            assert(rest.last() == d.last());
            if d.last() <= rest.len() {
                assert(rest.subrange(0, rest.len() - rest.last()) =~= d.subrange(
                    off,
                    d.len() - d.last(),
                ));
            }
        }
    }
}

/// Packets of a stream follow each other by one in their sequence numbers and by
/// their samples in their timestamps, around at the end of the range, and keep
/// their source and payload type.
pub proof fn law_packets_follow(b: RtpPacketBuilder, samples: u32, first: Seq<u8>, second: Seq<u8>)
    ensures
        ({
            let p = b.next_packet(first, false).header;
            let q = b.advanced(samples).next_packet(second, false).header;
            &&& p.sequence_number < 0xFFFF ==> q.sequence_number == p.sequence_number + 1
            &&& p.sequence_number == 0xFFFF ==> q.sequence_number == 0
            &&& q.timestamp == p.timestamp + samples || q.timestamp == p.timestamp + samples
                - 0x1_0000_0000
            &&& p.ssrc == q.ssrc == b.ssrc
            &&& p.payload_type == q.payload_type == b.payload_type
        }),
{
}

/// A packet that is built holds its payload and marker and is of version 2.
pub proof fn law_built(b: RtpPacketBuilder, payload: Seq<u8>, marker: bool)
    requires
        b.payload_type < 128,
    ensures
        ({
            let p = b.next_packet(payload, marker);
            let d = packet::plain_bytes(p);
            &&& packet::is_plain(p)
            &&& p.payload == payload
            &&& d.len() == 12 + payload.len()
            &&& d[0] == 128
            &&& d[1] == b.payload_type + if marker {
                128int
            } else {
                0
            }
            &&& wire::number(d.subrange(2, 4)) == b.sequence
            &&& wire::number(d.subrange(4, 8)) == b.timestamp
            &&& wire::number(d.subrange(8, 12)) == b.ssrc
            &&& d.skip(12) == payload
        }),
{
    law_wire_form(b.next_packet(payload, marker));
}

} // verus!
