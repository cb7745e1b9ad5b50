//! Where everything stands in a packet.

use crate::rtp::rtcp;
use crate::rtp::rtcp::laws;
use crate::rtp::rtcp::{NtpTimestamp, ReportBlock, RtcpModel, VoipMetrics};
use crate::text;
use crate::wire;
use vstd::prelude::*;

verus! {

/// The number in the bytes from a position up to another.
pub open spec fn num(d: Seq<u8>, from: int, to: int) -> int {
    wire::number(d.subrange(from, to))
}

/// Bytes that are one packet: a first byte that holds version 2 and a count of
/// up to 31, the type, and the number of words behind the first.
pub open spec fn is_packet(d: Seq<u8>, count: int, pt: int) -> bool {
    &&& d.len() >= 4
    &&& 0 <= count <= 31
    &&& d[0] == 128 + count
    &&& d[1] == pt
    &&& 4 * num(d, 2, 4) + 4 == d.len()
}

proof fn lemma_header(count: nat, pt: u8, words: nat, rest: Seq<u8>)
    requires
        count <= 31,
        words <= 0xFFFF,
        rest.len() == 4 * words,
    ensures
        is_packet(rtcp::header(count, pt, words) + rest, count as int, pt as int),
        rtcp::header(count, pt, words).len() == 4,
{
    let h = rtcp::header(count, pt, words);
    wire::law_bytes_stand_for_number(words as u16, 0, 0);
    assert((h + rest).subrange(2, 4) =~= wire::be16(words as u16));
}

/// A moment is written as its seconds, then its fraction.
pub proof fn law_moment_layout(t: NtpTimestamp)
    ensures
        t.bytes().len() == 8,
        num(t.bytes(), 0, 4) == t.seconds,
        num(t.bytes(), 4, 8) == t.fraction,
{
    wire::law_bytes_stand_for_number(0, t.seconds, 0);
    wire::law_bytes_stand_for_number(0, t.fraction, 0);
    assert(t.bytes().subrange(0, 4) =~= wire::be32(t.seconds));
    assert(t.bytes().subrange(4, 8) =~= wire::be32(t.fraction));
}

/// The short form of a moment: the low half of its seconds before the high half
/// of its fraction. It stands for the moment in 65536ths of a second.
pub proof fn law_short_moment(t: NtpTimestamp)
    ensures
        t.middle() % 0x1_0000 == t.fraction / 0x1_0000,
        t.middle() / 0x1_0000 == t.seconds % 0x1_0000,
        num(t.bytes(), 2, 6) == t.middle(),
{
    let s = t.bytes().subrange(2, 6);
    wire::lemma_number_4(s);
    lemma_middle(t.seconds as int, t.fraction as int);
}

proof fn lemma_middle(a: int, f: int)
    requires
        0 <= a < 0x1_0000_0000,
        0 <= f < 0x1_0000_0000,
    ensures
        (a / 0x100 % 0x100) * 0x100_0000 + (a % 0x100) * 0x1_0000 + (f / 0x100_0000) * 0x100 + (f
            / 0x1_0000 % 0x100) == (a % 0x1_0000) * 0x1_0000 + f / 0x1_0000,
        0 <= f / 0x100_0000 < 0x100,
        0 <= f / 0x1_0000 < 0x1_0000,
{
    assert(a % 0x1_0000 == (a / 0x100 % 0x100) * 0x100 + a % 0x100);
    assert(f / 0x1_0000 == (f / 0x100_0000) * 0x100 + f / 0x1_0000 % 0x100);
}

/// Voice metrics are 28 bytes: four rates, four durations of two bytes, eight
/// levels and scores, the settings, a byte that is zero, and three delays of two
/// bytes.
pub proof fn law_metrics_layout(m: VoipMetrics)
    ensures
        m.bytes().len() == 28,
        m.bytes()[0] == m.loss_rate,
        m.bytes()[1] == m.discard_rate,
        m.bytes()[2] == m.burst_density,
        m.bytes()[3] == m.gap_density,
        num(m.bytes(), 4, 6) == m.burst_duration,
        num(m.bytes(), 6, 8) == m.gap_duration,
        num(m.bytes(), 8, 10) == m.round_trip_delay,
        num(m.bytes(), 10, 12) == m.end_system_delay,
        m.bytes()[12] == m.signal_level,
        m.bytes()[13] == m.noise_level,
        m.bytes()[14] == m.rerl,
        m.bytes()[15] == m.gmin,
        m.bytes()[16] == m.r_factor,
        m.bytes()[17] == m.ext_r_factor,
        m.bytes()[18] == m.mos_lq,
        m.bytes()[19] == m.mos_cq,
        m.bytes()[20] == m.rx_config,
        m.bytes()[21] == 0,
        num(m.bytes(), 22, 24) == m.jb_nominal,
        num(m.bytes(), 24, 26) == m.jb_maximum,
        num(m.bytes(), 26, 28) == m.jb_abs_max,
{
    let b = m.bytes();
    wire::law_bytes_stand_for_number(m.burst_duration, 0, 0);
    wire::law_bytes_stand_for_number(m.gap_duration, 0, 0);
    wire::law_bytes_stand_for_number(m.round_trip_delay, 0, 0);
    wire::law_bytes_stand_for_number(m.end_system_delay, 0, 0);
    wire::law_bytes_stand_for_number(m.jb_nominal, 0, 0);
    wire::law_bytes_stand_for_number(m.jb_maximum, 0, 0);
    wire::law_bytes_stand_for_number(m.jb_abs_max, 0, 0);
    assert(b.subrange(4, 6) =~= wire::be16(m.burst_duration));
    assert(b.subrange(6, 8) =~= wire::be16(m.gap_duration));
    assert(b.subrange(8, 10) =~= wire::be16(m.round_trip_delay));
    assert(b.subrange(10, 12) =~= wire::be16(m.end_system_delay));
    assert(b.subrange(22, 24) =~= wire::be16(m.jb_nominal));
    assert(b.subrange(24, 26) =~= wire::be16(m.jb_maximum));
    assert(b.subrange(26, 28) =~= wire::be16(m.jb_abs_max));
}

/// How many entries of a list a packet holds.
pub open spec fn held(n: nat) -> int {
    if n <= 31 {
        n as int
    } else {
        31
    }
}

/// A sender report: type 200, the source, the moment, the stream's clock, what
/// was sent in packets and bytes, and up to 31 blocks of 24 bytes in their
/// order.
pub proof fn law_sender_report_layout(
    ssrc: u32,
    ntp: NtpTimestamp,
    rtp_timestamp: u32,
    packet_count: u32,
    octet_count: u32,
    blocks: Seq<ReportBlock>,
)
    ensures
        ({
            let d = rtcp::sender_report_bytes(
                ssrc,
                ntp,
                rtp_timestamp,
                packet_count,
                octet_count,
                blocks,
            );
            &&& is_packet(d, held(blocks.len()), 200)
            &&& d.len() == 28 + 24 * held(blocks.len())
            &&& num(d, 4, 8) == ssrc
            &&& num(d, 8, 12) == ntp.seconds
            &&& num(d, 12, 16) == ntp.fraction
            &&& num(d, 16, 20) == rtp_timestamp
            &&& num(d, 20, 24) == packet_count
            &&& num(d, 24, 28) == octet_count
            &&& forall|i: int|
                0 <= i < held(blocks.len()) ==> d.subrange(28 + 24 * i, 52 + 24 * i)
                    == #[trigger] blocks[i].bytes()
        }),
{
    let n = rtcp::header_count(blocks.len());
    let kept = rtcp::first_31(blocks);
    let h = rtcp::header(n, rtcp::PT_SR, 6 + 6 * n);
    let d = rtcp::sender_report_bytes(
        ssrc,
        ntp,
        rtp_timestamp,
        packet_count,
        octet_count,
        blocks,
    );
    let rest = wire::be32(ssrc) + ntp.bytes() + wire::be32(rtp_timestamp) + wire::be32(packet_count)
        + wire::be32(octet_count) + rtcp::blocks_bytes(kept);
    rtcp::lemma_blocks_bytes(kept);
    wire::law_bytes_stand_for_number(0, ssrc, 0);
    wire::law_bytes_stand_for_number(0, ntp.seconds, 0);
    wire::law_bytes_stand_for_number(0, ntp.fraction, 0);
    wire::law_bytes_stand_for_number(0, rtp_timestamp, 0);
    wire::law_bytes_stand_for_number(0, packet_count, 0);
    wire::law_bytes_stand_for_number(0, octet_count, 0);
    assert(rest.len() == 24 + 24 * n);
    lemma_header(n, rtcp::PT_SR, 6 + 6 * n, rest);
    assert(d =~= h + rest);
    assert(d.subrange(4, 8) =~= wire::be32(ssrc));
    assert(d.subrange(8, 12) =~= wire::be32(ntp.seconds));
    assert(d.subrange(12, 16) =~= wire::be32(ntp.fraction));
    assert(d.subrange(16, 20) =~= wire::be32(rtp_timestamp));
    assert(d.subrange(20, 24) =~= wire::be32(packet_count));
    assert(d.subrange(24, 28) =~= wire::be32(octet_count));
    assert forall|i: int| 0 <= i < held(blocks.len()) implies d.subrange(28 + 24 * i, 52 + 24 * i)
        == #[trigger] blocks[i].bytes() by {
        assert(kept[i] == blocks[i]);
        assert(d.subrange(28 + 24 * i, 52 + 24 * i) =~= rtcp::blocks_bytes(kept).subrange(
            24 * i,
            24 * i + 24,
        ));
        assert(kept[i].bytes() == rtcp::blocks_bytes(kept).subrange(24 * i, 24 * i + 24));
    }
}

/// A receiver report: type 201, the source, and up to 31 blocks in their order.
pub proof fn law_receiver_report_layout(ssrc: u32, blocks: Seq<ReportBlock>)
    ensures
        ({
            let d = rtcp::receiver_report_bytes(ssrc, blocks);
            &&& is_packet(d, held(blocks.len()), 201)
            &&& d.len() == 8 + 24 * held(blocks.len())
            &&& num(d, 4, 8) == ssrc
            &&& forall|i: int|
                0 <= i < held(blocks.len()) ==> d.subrange(8 + 24 * i, 32 + 24 * i)
                    == #[trigger] blocks[i].bytes()
        }),
{
    let n = rtcp::header_count(blocks.len());
    let kept = rtcp::first_31(blocks);
    let h = rtcp::header(n, rtcp::PT_RR, 1 + 6 * n);
    let d = rtcp::receiver_report_bytes(ssrc, blocks);
    let rest = wire::be32(ssrc) + rtcp::blocks_bytes(kept);
    rtcp::lemma_blocks_bytes(kept);
    wire::law_bytes_stand_for_number(0, ssrc, 0);
    assert(rest.len() == 4 + 24 * n);
    lemma_header(n, rtcp::PT_RR, 1 + 6 * n, rest);
    assert(d =~= h + rest);
    assert(d.subrange(4, 8) =~= wire::be32(ssrc));
    assert forall|i: int| 0 <= i < held(blocks.len()) implies d.subrange(8 + 24 * i, 32 + 24 * i)
        == #[trigger] blocks[i].bytes() by {
        assert(kept[i] == blocks[i]);
        assert(d.subrange(8 + 24 * i, 32 + 24 * i) =~= rtcp::blocks_bytes(kept).subrange(
            24 * i,
            24 * i + 24,
        ));
        assert(kept[i].bytes() == rtcp::blocks_bytes(kept).subrange(24 * i, 24 * i + 24));
    }
}

/// A source description: type 202 and one source, an item of type 1 with the
/// length of the name and up to 255 bytes of it, and one to four zeros up to a
/// whole word.
pub proof fn law_description_layout(ssrc: u32, cname: Seq<u8>)
    ensures
        ({
            let d = rtcp::sdes_bytes(ssrc, cname);
            let n = if cname.len() <= 255 {
                cname.len() as int
            } else {
                255
            };
            &&& is_packet(d, 1, 202)
            &&& num(d, 4, 8) == ssrc
            &&& d[8] == 1
            &&& d[9] == n
            &&& d.subrange(10, 10 + n) == cname.take(n)
            &&& 10 + n + 1 <= d.len() <= 10 + n + 4
            &&& forall|i: int| 10 + n <= i < d.len() ==> #[trigger] d[i] == 0
        }),
{
    let name = rtcp::item_bytes(cname);
    let items = rtcp::round_up(name.len() + 3);
    let words = (1 + items / 4) as nat;
    let h = rtcp::header(1, rtcp::PT_SDES, words);
    let rest = wire::be32(ssrc) + seq![rtcp::SDES_CNAME, name.len() as u8] + name + rtcp::zeros(
        (items - 2 - name.len()) as nat,
    );
    let d = rtcp::sdes_bytes(ssrc, cname);
    wire::law_bytes_stand_for_number(0, ssrc, 0);
    assert(rest.len() == 4 + items);
    lemma_header(1, rtcp::PT_SDES, words, rest);
    assert(d =~= h + rest);
    assert(d.subrange(4, 8) =~= wire::be32(ssrc));
    let n = name.len() as int;
    assert(cname.take(n) =~= name);
    assert(d.subrange(10, 10 + n) =~= cname.take(n));
}

/// A goodbye: type 203, up to 31 sources, and where there is a reason its length,
/// up to 255 bytes of it, and up to three zeros up to a whole word.
pub proof fn law_goodbye_layout(sources: Seq<u32>, reason: Option<Seq<u8>>)
    ensures
        ({
            let d = rtcp::bye_bytes(sources, reason);
            let end = 4 + 4 * held(sources.len());
            &&& is_packet(d, held(sources.len()), 203)
            &&& forall|i: int|
                0 <= i < held(sources.len()) ==> num(d, 4 + 4 * i, 8 + 4 * i)
                    == #[trigger] sources[i]
            &&& match reason {
                None => d.len() == end,
                Some(r) => {
                    let n = if r.len() <= 255 {
                        r.len() as int
                    } else {
                        255
                    };
                    &&& d[end] == n
                    &&& d.subrange(end + 1, end + 1 + n) == r.take(n)
                    &&& end + 1 + n <= d.len() <= end + 1 + n + 3
                    &&& forall|i: int| end + 1 + n <= i < d.len() ==> #[trigger] d[i] == 0
                },
            }
        }),
{
    let n = rtcp::header_count(sources.len());
    let kept = rtcp::first_31(sources);
    let r = rtcp::reason_bytes(reason);
    let words = (n + r.len() / 4) as nat;
    let h = rtcp::header(n, rtcp::PT_BYE, words);
    let rest = rtcp::words_bytes(kept) + r;
    let d = rtcp::bye_bytes(sources, reason);
    lemma_words(kept);
    assert(r.len() % 4 == 0 && r.len() <= 256);
    assert(rest.len() == 4 * words);
    lemma_header(n, rtcp::PT_BYE, words, rest);
    assert(d =~= h + rest);
    assert forall|i: int| 0 <= i < held(sources.len()) implies num(d, 4 + 4 * i, 8 + 4 * i)
        == #[trigger] sources[i] by {
        assert(kept[i] == sources[i]);
        assert(d.subrange(4 + 4 * i, 8 + 4 * i) =~= rtcp::words_bytes(kept).subrange(
            4 * i,
            4 * i + 4,
        ));
        assert(num(rtcp::words_bytes(kept), 4 * i, 4 * i + 4) == kept[i]);
    }
    if reason is Some {
        let t = rtcp::item_bytes(reason->Some_0);
        let end = 4 + 4 * held(sources.len());
        assert(reason->Some_0.take(t.len() as int) =~= t);
        assert(d.subrange(end + 1, end + 1 + t.len()) =~= t);
    }
}

proof fn lemma_words(words: Seq<u32>)
    ensures
        rtcp::words_bytes(words).len() == 4 * words.len(),
        forall|i: int|
            0 <= i < words.len() ==> num(rtcp::words_bytes(words), 4 * i, 4 * i + 4)
                == #[trigger] words[i],
    decreases words.len(),
{
    if words.len() > 0 {
        let before = words.drop_last();
        lemma_words(before);
        let b = rtcp::words_bytes(words);
        let a = rtcp::words_bytes(before);
        wire::law_bytes_stand_for_number(0, words.last(), 0);
        assert forall|i: int| 0 <= i < words.len() implies num(b, 4 * i, 4 * i + 4)
            == #[trigger] words[i] by {
            if i < before.len() {
                assert(before[i] == words[i]);
                assert(b.subrange(4 * i, 4 * i + 4) =~= a.subrange(4 * i, 4 * i + 4));
                assert(num(a, 4 * i, 4 * i + 4) == before[i]);
            } else {
                assert(b.subrange(4 * i, 4 * i + 4) =~= wire::be32(words.last()));
            }
        }
    }
}

/// An extended report: type 207, the source, and one block of type 7 that is
/// eight words long behind its first, with the other source and its metrics.
pub proof fn law_extended_report_layout(ssrc: u32, remote_ssrc: u32, metrics: VoipMetrics)
    ensures
        ({
            let d = rtcp::xr_bytes(ssrc, remote_ssrc, metrics);
            &&& is_packet(d, 0, 207)
            &&& d.len() == 44
            &&& num(d, 4, 8) == ssrc
            &&& d[8] == 7
            &&& d[9] == 0
            &&& num(d, 10, 12) == 8
            &&& num(d, 12, 16) == remote_ssrc
            &&& d.subrange(16, 44) == metrics.bytes()
        }),
{
    let h = rtcp::header(0, rtcp::PT_XR, 10);
    let rest = wire::be32(ssrc) + seq![VoipMetrics::BLOCK_TYPE, 0u8, 0u8, 8u8] + wire::be32(
        remote_ssrc,
    ) + metrics.bytes();
    let d = rtcp::xr_bytes(ssrc, remote_ssrc, metrics);
    law_metrics_layout(metrics);
    wire::law_bytes_stand_for_number(8, ssrc, 0);
    wire::law_bytes_stand_for_number(8, remote_ssrc, 0);
    lemma_header(0, rtcp::PT_XR, 10, rest);
    assert(d =~= h + rest);
    assert(d.subrange(4, 8) =~= wire::be32(ssrc));
    assert(d.subrange(10, 12) =~= wire::be16(8));
    assert(d.subrange(12, 16) =~= wire::be32(remote_ssrc));
    assert(d.subrange(16, 44) =~= metrics.bytes());
}

/// What is no packet of version 2, or is cut short, is not read, nor is anything
/// behind it.
pub proof fn law_no_packet_not_read(d: Seq<u8>)
    requires
        d.len() < 4 || d[0] < 128 || d[0] >= 192 || 4 * num(d, 2, 4) + 4 > d.len(),
    ensures
        rtcp::parsed_compound(d).len() == 0,
{
    if d.len() >= 4 {
        wire::law_read_number(d, 2);
    }
}

/// A packet is read by its type alone: 200 and 201 are reports, 202 a source
/// description, 203 a goodbye, 207 an extended report, and any other type is
/// told and skipped. A report too short for its head is skipped.
pub proof fn law_types_read(d: Seq<u8>, count: int, pt: u8)
    requires
        is_packet(d, count, pt as int),
    ensures
        ({
            let r = rtcp::parsed_compound(d);
            &&& r.len() <= 1
            &&& pt == 200 ==> (r.len() == 1 <==> d.len() >= 28) && (r.len() == 1 ==> r[0] is SenderReport)
            &&& pt == 201 ==> (r.len() == 1 <==> d.len() >= 8) && (r.len() == 1 ==> r[0] is ReceiverReport)
            &&& pt == 202 ==> r.len() == 1 && r[0] is SourceDescription
            &&& pt == 203 ==> r.len() == 1 && r[0] is Goodbye
            &&& pt == 207 ==> (r.len() == 1 <==> d.len() >= 8) && (r.len() == 1 ==> r[0] is ExtendedReport)
            &&& pt != 200 && pt != 201 && pt != 202 && pt != 203 && pt != 207 ==> r
                == seq![RtcpModel::Unknown { packet_type: pt }]
        }),
{
    lemma_alone(d, count, pt);
}

proof fn lemma_alone(d: Seq<u8>, count: int, pt: u8)
    requires
        is_packet(d, count, pt as int),
    ensures
        rtcp::parsed_compound(d) == match rtcp::parsed_one(d, count as nat, pt) {
            Some(p) => seq![p],
            None => Seq::empty(),
        },
{
    wire::law_read_number(d, 2);
    let n = d.len() as int;
    assert(d.subrange(0, n) =~= d);
    let rest = d.subrange(n, n);
    assert(rtcp::parsed_compound(rest) =~= Seq::empty());
    assert(d[0] / 32 % 2 == 0);
    assert(rtcp::unpadded_len(d) == n);
    assert(rtcp::packet_len(d) == n);
}

/// A sender report is read from its places; of the blocks it counts, those that
/// are there.
pub proof fn law_sender_report_read(d: Seq<u8>, count: int)
    requires
        is_packet(d, count, 200),
        d.len() >= 28,
    ensures
        ({
            let r = rtcp::parsed_compound(d);
            &&& r.len() == 1
            &&& r[0] matches RtcpModel::SenderReport {
                ssrc,
                ntp,
                rtp_timestamp,
                packet_count,
                octet_count,
                blocks,
            }
            &&& ssrc == num(d, 4, 8)
            &&& ntp.seconds == num(d, 8, 12)
            &&& ntp.fraction == num(d, 12, 16)
            &&& rtp_timestamp == num(d, 16, 20)
            &&& packet_count == num(d, 20, 24)
            &&& octet_count == num(d, 24, 28)
            &&& blocks.len() <= count
            &&& blocks.len() == count || 28 + 24 * (blocks.len() + 1) > d.len()
            &&& 28 + 24 * blocks.len() <= d.len()
            &&& forall|i: int| 0 <= i < blocks.len() ==> block_read(d, 28 + 24 * i, #[trigger] blocks[i])
        }),
{
    lemma_alone(d, count, 200);
    wire::law_read_number(d, 4);
    wire::law_read_number(d, 8);
    wire::law_read_number(d, 12);
    wire::law_read_number(d, 16);
    wire::law_read_number(d, 20);
    wire::law_read_number(d, 24);
    let blocks = rtcp::blocks_at(d, 28, count as nat);
    assert forall|i: int| 0 <= i < blocks.len() implies block_read(d, 28 + 24 * i, #[trigger] blocks[i]) by {
        lemma_block_read(d, 28 + 24 * i);
    }
}

/// A receiver report is read from its places.
pub proof fn law_receiver_report_read(d: Seq<u8>, count: int)
    requires
        is_packet(d, count, 201),
        d.len() >= 8,
    ensures
        ({
            let r = rtcp::parsed_compound(d);
            &&& r.len() == 1
            &&& r[0] matches RtcpModel::ReceiverReport { ssrc, blocks }
            &&& ssrc == num(d, 4, 8)
            &&& blocks.len() <= count
            &&& blocks.len() == count || 8 + 24 * (blocks.len() + 1) > d.len()
            &&& 8 + 24 * blocks.len() <= d.len()
            &&& forall|i: int| 0 <= i < blocks.len() ==> block_read(d, 8 + 24 * i, #[trigger] blocks[i])
        }),
{
    lemma_alone(d, count, 201);
    wire::law_read_number(d, 4);
    let blocks = rtcp::blocks_at(d, 8, count as nat);
    assert forall|i: int| 0 <= i < blocks.len() implies block_read(d, 8 + 24 * i, #[trigger] blocks[i]) by {
        lemma_block_read(d, 8 + 24 * i);
    }
}

/// A block as it stands at a position: the loss in all is a number of three
/// bytes of which the upper half stands for less than none.
pub open spec fn block_read(d: Seq<u8>, o: int, b: ReportBlock) -> bool {
    &&& b.ssrc == num(d, o, o + 4)
    &&& b.fraction_lost == d[o + 4]
    &&& b.cumulative_lost == num(d, o + 5, o + 8) - (if d[o + 5] >= 128 {
        0x100_0000int
    } else {
        0
    })
    &&& b.extended_highest_seq == num(d, o + 8, o + 12)
    &&& b.jitter == num(d, o + 12, o + 16)
    &&& b.last_sr == num(d, o + 16, o + 20)
    &&& b.delay_since_last_sr == num(d, o + 20, o + 24)
}

proof fn lemma_block_read(d: Seq<u8>, o: int)
    requires
        0 <= o,
        o + 24 <= d.len(),
    ensures
        block_read(d, o, ReportBlock::at(d, o)),
{
    wire::law_read_number(d, o);
    wire::law_read_number(d, o + 8);
    wire::law_read_number(d, o + 12);
    wire::law_read_number(d, o + 16);
    wire::law_read_number(d, o + 20);
    wire::law_read_number(d, o + 5);
    let s = d.subrange(o + 5, o + 8);
    assert(s.drop_last() =~= d.subrange(o + 5, o + 7));
    assert(wire::number(s) == wire::number(s.drop_last()) * 0x100 + s.last());
}

/// The sources of a goodbye are the words behind its head, as many as it counts
/// and holds; behind them stands the reason, if its length fits.
pub proof fn law_goodbye_read(d: Seq<u8>, count: int)
    requires
        is_packet(d, count, 203),
    ensures
        ({
            let r = rtcp::parsed_compound(d);
            &&& r.len() == 1
            &&& r[0] matches RtcpModel::Goodbye { sources, reason }
            &&& sources.len() <= count
            &&& sources.len() == count || 4 + 4 * sources.len() == d.len()
            &&& 4 + 4 * sources.len() <= d.len()
            &&& forall|i: int|
                0 <= i < sources.len() ==> #[trigger] sources[i] == num(d, 4 + 4 * i, 8 + 4 * i)
            &&& ({
                let o = 4 + 4 * sources.len() as int;
                if o < d.len() && o + 1 + d[o] <= d.len() {
                    reason == text::utf8_text(d.subrange(o + 1, o + 1 + d[o]))
                } else {
                    reason is None
                }
            })
        }),
{
    lemma_alone(d, count, 203);
    let n = rtcp::whole_items(d.len(), 4, 4, count as nat);
    let sources = Seq::new(n, |i: int| wire::u32_at(d, 4 + 4 * i));
    assert forall|i: int| 0 <= i < n implies #[trigger] sources[i] == num(
        d,
        4 + 4 * i,
        8 + 4 * i,
    ) by {
        wire::law_read_number(d, 4 + 4 * i);
    }
}

/// Padding is not read: the last byte of a packet whose head says so counts the
/// bytes at its end that are none of a report's blocks.
pub proof fn law_padding_not_read(d: Seq<u8>, count: int)
    requires
        d.len() >= 8,
        0 <= count <= 31,
        d[0] == 160 + count,
        d[1] == 201,
        4 * num(d, 2, 4) + 4 == d.len(),
        1 <= d.last() <= d.len() - 8,
    ensures
        ({
            let r = rtcp::parsed_compound(d);
            &&& r.len() == 1
            &&& r[0] matches RtcpModel::ReceiverReport { ssrc, blocks }
            &&& ssrc == num(d, 4, 8)
            &&& 8 + 24 * blocks.len() <= d.len() - d.last()
        }),
{
    wire::law_read_number(d, 2);
    wire::law_read_number(d, 4);
    let n = d.len() as int;
    let cut = d.subrange(0, n - d.last());
    assert(d[0] / 32 % 2 == 1);
    assert(d[0] % 32 == count);
    assert(rtcp::packet_len(d) == n);
    assert(rtcp::unpadded_len(d) == n - d.last());
    assert(rtcp::parsed_compound(d.subrange(n, n)) =~= Seq::empty());
    assert(cut[4] == d[4] && cut[5] == d[5] && cut[6] == d[6] && cut[7] == d[7]);
}

/// What stands behind a packet is read after it.
pub proof fn law_packets_in_a_row(d: Seq<u8>, count: int, pt: u8, rest: Seq<u8>)
    requires
        is_packet(d, count, pt as int),
    ensures
        rtcp::parsed_compound(d + rest) == rtcp::parsed_compound(d) + rtcp::parsed_compound(rest),
{
    wire::law_read_number(d, 2);
    let words = (d.len() / 4 - 1) as nat;
    let h = rtcp::header(count as nat, pt, words);
    assert(d.subrange(0, 4) =~= h) by {
        assert(wire::u16_at(d, 2) == words);
    }
    laws::law_first_packet(d, rest, count as nat, pt, words);
    laws::law_first_packet(d, Seq::empty(), count as nat, pt, words);
    assert(d + Seq::<u8>::empty() =~= d);
    let one = laws::one(d, count as nat, pt);
    assert(rtcp::parsed_compound(Seq::<u8>::empty()) =~= Seq::empty());
    assert(one + Seq::empty() =~= one);
}

} // verus!
