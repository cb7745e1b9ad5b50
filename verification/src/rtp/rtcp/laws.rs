//! What is written is read back.

use crate::rtp::rtcp;
use crate::rtp::rtcp::session::{QualityScores, RtcpSession};
use crate::rtp::rtcp::{NtpTimestamp, ReportBlock, VoipMetrics, VoipMetricsBlock};
use crate::wire;
use vstd::prelude::*;

verus! {

/// A timestamp reads back from its bytes.
pub proof fn law_ntp_round_trip(t: NtpTimestamp)
    ensures
        NtpTimestamp::at(t.bytes(), 0) == t,
{
    assert(t.bytes().subrange(0, 8) =~= t.bytes());
    lemma_ntp_read(t.bytes(), 0, t);
}

proof fn lemma_ntp_read(d: Seq<u8>, o: int, t: NtpTimestamp)
    requires
        0 <= o,
        o + 8 <= d.len(),
        d.subrange(o, o + 8) == t.bytes(),
    ensures
        NtpTimestamp::at(d, o) == t,
{
    let b = d.subrange(o, o + 8);
    assert(d.subrange(o, o + 4) =~= b.subrange(0, 4));
    assert(b.subrange(0, 4) =~= wire::be32(t.seconds));
    wire::lemma_be32_read(d, o, t.seconds);
    assert(d.subrange(o + 4, o + 8) =~= b.subrange(4, 8));
    assert(b.subrange(4, 8) =~= wire::be32(t.fraction));
    wire::lemma_be32_read(d, o + 4, t.fraction);
}

proof fn lemma_i24_read(d: Seq<u8>, o: int, x: i32)
    requires
        0 <= o,
        o + 3 <= d.len(),
        d.subrange(o, o + 3) == rtcp::be24(x as int),
        -0x80_0000 <= x < 0x80_0000,
    ensures
        rtcp::i24_at(d, o) == x,
{
    let b = d.subrange(o, o + 3);
    assert(b[0] == d[o] && b[1] == d[o + 1] && b[2] == d[o + 2]);
    let low = (x as int) % 0x100_0000;
    assert(d[o] * 0x1_0000 + d[o + 1] * 0x100 + d[o + 2] == low);
}

proof fn lemma_sub(d: Seq<u8>, o: int, b: Seq<u8>, i: int, n: int, x: Seq<u8>)
    requires
        0 <= o,
        o + b.len() <= d.len(),
        d.subrange(o, o + b.len()) == b,
        0 <= i <= i + n <= b.len(),
        b.subrange(i, i + n) == x,
    ensures
        d.subrange(o + i, o + i + n) == x,
{
    assert(d.subrange(o + i, o + i + n) =~= d.subrange(o, o + b.len()).subrange(i, i + n));
}

proof fn lemma_block_read(d: Seq<u8>, o: int, r: ReportBlock)
    requires
        0 <= o,
        o + 24 <= d.len(),
        d.subrange(o, o + 24) == r.bytes(),
        r.fits(),
    ensures
        ReportBlock::at(d, o) == r,
{
    let b = r.bytes();
    assert(b.len() == 24);
    assert(b.subrange(0, 4) =~= wire::be32(r.ssrc));
    lemma_sub(d, o, b, 0, 4, wire::be32(r.ssrc));
    wire::lemma_be32_read(d, o, r.ssrc);
    assert(b[4] == r.fraction_lost);
    assert(d.subrange(o, o + 24)[4] == d[o + 4]);
    assert(b.subrange(5, 8) =~= rtcp::be24(r.cumulative_lost as int));
    lemma_sub(d, o, b, 5, 3, rtcp::be24(r.cumulative_lost as int));
    lemma_i24_read(d, o + 5, r.cumulative_lost);
    assert(b.subrange(8, 12) =~= wire::be32(r.extended_highest_seq));
    lemma_sub(d, o, b, 8, 4, wire::be32(r.extended_highest_seq));
    wire::lemma_be32_read(d, o + 8, r.extended_highest_seq);
    assert(b.subrange(12, 16) =~= wire::be32(r.jitter));
    lemma_sub(d, o, b, 12, 4, wire::be32(r.jitter));
    wire::lemma_be32_read(d, o + 12, r.jitter);
    assert(b.subrange(16, 20) =~= wire::be32(r.last_sr));
    lemma_sub(d, o, b, 16, 4, wire::be32(r.last_sr));
    wire::lemma_be32_read(d, o + 16, r.last_sr);
    assert(b.subrange(20, 24) =~= wire::be32(r.delay_since_last_sr));
    lemma_sub(d, o, b, 20, 4, wire::be32(r.delay_since_last_sr));
    wire::lemma_be32_read(d, o + 20, r.delay_since_last_sr);
}

/// A report block reads back from its bytes, its loss being in range.
pub proof fn law_report_block_round_trip(r: ReportBlock)
    requires
        r.fits(),
    ensures
        ReportBlock::at(r.bytes(), 0) == r,
{
    assert(r.bytes().len() == 24);
    assert(r.bytes().subrange(0, 24) =~= r.bytes());
    lemma_block_read(r.bytes(), 0, r);
}

proof fn lemma_u16_in(d: Seq<u8>, o: int, b: Seq<u8>, i: int, x: u16)
    requires
        0 <= o,
        o + b.len() <= d.len(),
        d.subrange(o, o + b.len()) == b,
        0 <= i <= i + 2 <= b.len(),
        b.subrange(i, i + 2) == wire::be16(x),
    ensures
        wire::u16_at(d, o + i) == x,
{
    lemma_sub(d, o, b, i, 2, wire::be16(x));
    wire::lemma_be16_read(d, o + i, x);
}

proof fn lemma_metrics_read(d: Seq<u8>, o: int, m: VoipMetrics)
    requires
        0 <= o,
        o + 28 <= d.len(),
        d.subrange(o, o + 28) == m.bytes(),
    ensures
        VoipMetrics::at(d, o) == m,
{
    let b = m.bytes();
    assert(b.len() == 28);
    assert forall|i: int| 0 <= i < 28 implies #[trigger] d[o + i] == b[i] by {
        assert(d.subrange(o, o + 28)[i] == d[o + i]);
    }
    assert(d[o] == d[o + 0]);
    assert(b.subrange(4, 6) =~= wire::be16(m.burst_duration));
    lemma_u16_in(d, o, b, 4, m.burst_duration);
    assert(b.subrange(6, 8) =~= wire::be16(m.gap_duration));
    lemma_u16_in(d, o, b, 6, m.gap_duration);
    assert(b.subrange(8, 10) =~= wire::be16(m.round_trip_delay));
    lemma_u16_in(d, o, b, 8, m.round_trip_delay);
    assert(b.subrange(10, 12) =~= wire::be16(m.end_system_delay));
    lemma_u16_in(d, o, b, 10, m.end_system_delay);
    assert(b.subrange(22, 24) =~= wire::be16(m.jb_nominal));
    lemma_u16_in(d, o, b, 22, m.jb_nominal);
    assert(b.subrange(24, 26) =~= wire::be16(m.jb_maximum));
    lemma_u16_in(d, o, b, 24, m.jb_maximum);
    assert(b.subrange(26, 28) =~= wire::be16(m.jb_abs_max));
    lemma_u16_in(d, o, b, 26, m.jb_abs_max);
}

/// Voice metrics read back from their bytes.
pub proof fn law_metrics_round_trip(m: VoipMetrics)
    ensures
        VoipMetrics::at(m.bytes(), 0) == m,
{
    assert(m.bytes().len() == 28);
    assert(m.bytes().subrange(0, 28) =~= m.bytes());
    lemma_metrics_read(m.bytes(), 0, m);
}

/// What one packet says, as a list.
pub open spec fn one(d: Seq<u8>, count: nat, pt: u8) -> Seq<rtcp::RtcpModel> {
    match rtcp::parsed_one(d, count, pt) {
        Some(p) => seq![p],
        None => Seq::empty(),
    }
}

/// A packet whose header tells its length is read first, and what follows it
/// is read as if it stood alone.
pub proof fn law_first_packet(p: Seq<u8>, rest: Seq<u8>, count: nat, pt: u8, words: nat)
    requires
        count <= 31,
        words <= 0xFFFF,
        p.len() == 4 * (words + 1),
        p.subrange(0, 4) == rtcp::header(count, pt, words),
    ensures
        rtcp::parsed_compound(p + rest) == one(p, count, pt) + rtcp::parsed_compound(rest),
{
    let d = p + rest;
    let h = rtcp::header(count, pt, words);
    assert(h.len() == 4);
    assert(d.subrange(0, 4) =~= h);
    assert(d[0] == h[0] && d[1] == h[1] && d[2] == h[2] && d[3] == h[3]) by {
        let t = d.subrange(0, 4);
        assert(t[0] == d[0] && t[1] == d[1] && t[2] == d[2] && t[3] == d[3]);
    }
    assert(d[0] == 128 + count);
    assert(wire::be16(words as u16)[0] == h[2] && wire::be16(words as u16)[1] == h[3]);
    assert(wire::u16_at(d, 2) == words);
    assert(rtcp::packet_len(d) == p.len());
    assert(rtcp::unpadded_len(d) == p.len());
    assert(d.subrange(0, p.len() as int) =~= p);
    assert(d.subrange(p.len() as int, d.len() as int) =~= rest);
    assert(d[0] % 32 == count);
}

proof fn lemma_u32_in(d: Seq<u8>, o: int, x: u32)
    requires
        0 <= o,
        o + 4 <= d.len(),
        d.subrange(o, o + 4) =~= wire::be32(x),
    ensures
        wire::u32_at(d, o) == x,
{
    wire::lemma_be32_read(d, o, x);
}

proof fn lemma_blocks_read(d: Seq<u8>, o: int, blocks: Seq<ReportBlock>)
    requires
        0 <= o,
        d.len() == o + 24 * blocks.len(),
        d.subrange(o, d.len() as int) == rtcp::blocks_bytes(blocks),
        forall|i: int| 0 <= i < blocks.len() ==> (#[trigger] blocks[i]).fits(),
    ensures
        rtcp::blocks_at(d, o, blocks.len()) == blocks,
{
    rtcp::lemma_blocks_bytes(blocks);
    let b = rtcp::blocks_bytes(blocks);
    let r = rtcp::blocks_at(d, o, blocks.len());
    assert(r.len() == blocks.len());
    assert forall|i: int| 0 <= i < blocks.len() implies #[trigger] r[i] == blocks[i] by {
        assert(b.subrange(24 * i, 24 * i + 24) == blocks[i].bytes());
        assert(d.subrange(o + 24 * i, o + 24 * i + 24) =~= d.subrange(
            o,
            d.len() as int,
        ).subrange(24 * i, 24 * i + 24));
        lemma_block_read(d, o + 24 * i, blocks[i]);
    }
    assert(r =~= blocks);
}

/// A sender report is read back, with its first 31 blocks, whatever follows it.
pub proof fn law_sender_report_round_trip(
    ssrc: u32,
    ntp: NtpTimestamp,
    rtp_timestamp: u32,
    packet_count: u32,
    octet_count: u32,
    blocks: Seq<ReportBlock>,
    rest: Seq<u8>,
)
    requires
        forall|i: int| 0 <= i < blocks.len() ==> (#[trigger] blocks[i]).fits(),
    ensures
        rtcp::parsed_compound(
            rtcp::sender_report_bytes(
                ssrc,
                ntp,
                rtp_timestamp,
                packet_count,
                octet_count,
                blocks,
            ) + rest,
        ) == seq![
            rtcp::RtcpModel::SenderReport {
                ssrc,
                ntp,
                rtp_timestamp,
                packet_count,
                octet_count,
                blocks: rtcp::first_31(blocks),
            },
        ] + rtcp::parsed_compound(rest),
{
    let d = rtcp::sender_report_bytes(
        ssrc,
        ntp,
        rtp_timestamp,
        packet_count,
        octet_count,
        blocks,
    );
    let n = rtcp::header_count(blocks.len());
    let kept = rtcp::first_31(blocks);
    rtcp::lemma_blocks_bytes(kept);
    let h = rtcp::header(n, rtcp::PT_SR, 6 + 6 * n);
    assert(h.len() == 4);
    assert(ntp.bytes().len() == 8);
    assert(d.len() == 28 + 24 * n);
    assert(d.subrange(0, 4) =~= h);
    assert(d.subrange(4, 8) =~= wire::be32(ssrc));
    lemma_u32_in(d, 4, ssrc);
    assert(d.subrange(8, 16) =~= ntp.bytes());
    lemma_ntp_read(d, 8, ntp);
    assert(d.subrange(16, 20) =~= wire::be32(rtp_timestamp));
    lemma_u32_in(d, 16, rtp_timestamp);
    assert(d.subrange(20, 24) =~= wire::be32(packet_count));
    lemma_u32_in(d, 20, packet_count);
    assert(d.subrange(24, 28) =~= wire::be32(octet_count));
    lemma_u32_in(d, 24, octet_count);
    assert(d.subrange(28, d.len() as int) =~= rtcp::blocks_bytes(kept));
    lemma_blocks_read(d, 28, kept);
    law_first_packet(d, rest, n, rtcp::PT_SR, 6 + 6 * n);
}

/// A receiver report is read back, with its first 31 blocks, whatever follows it.
pub proof fn law_receiver_report_round_trip(
    ssrc: u32,
    blocks: Seq<ReportBlock>,
    rest: Seq<u8>,
)
    requires
        forall|i: int| 0 <= i < blocks.len() ==> (#[trigger] blocks[i]).fits(),
    ensures
        rtcp::parsed_compound(rtcp::receiver_report_bytes(ssrc, blocks) + rest) == seq![
            rtcp::RtcpModel::ReceiverReport { ssrc, blocks: rtcp::first_31(blocks) },
        ] + rtcp::parsed_compound(rest),
{
    let d = rtcp::receiver_report_bytes(ssrc, blocks);
    let n = rtcp::header_count(blocks.len());
    let kept = rtcp::first_31(blocks);
    rtcp::lemma_blocks_bytes(kept);
    let h = rtcp::header(n, rtcp::PT_RR, 1 + 6 * n);
    assert(h.len() == 4);
    assert(d.subrange(0, 4) =~= h);
    assert(d.subrange(4, 8) =~= wire::be32(ssrc));
    lemma_u32_in(d, 4, ssrc);
    assert(d.subrange(8, d.len() as int) =~= rtcp::blocks_bytes(kept));
    lemma_blocks_read(d, 8, kept);
    law_first_packet(d, rest, n, rtcp::PT_RR, 1 + 6 * n);
}

/// A source description is read back, whatever follows it, if the name takes
/// at most 255 bytes.
pub proof fn law_sdes_round_trip(ssrc: u32, cname: Seq<char>, rest: Seq<u8>)
    requires
        rtcp::utf8_of(cname).len() <= 255,
    ensures
        rtcp::parsed_compound(rtcp::sdes_bytes(ssrc, rtcp::utf8_of(cname)) + rest) == seq![
            rtcp::RtcpModel::SourceDescription {
                chunks: seq![rtcp::ChunkModel { ssrc, cname: Some(cname) }],
            },
        ] + rtcp::parsed_compound(rest),
{
    let name = rtcp::utf8_of(cname);
    let d = rtcp::sdes_bytes(ssrc, name);
    let items = rtcp::round_up(name.len() + 3);
    let words = (1 + items / 4) as nat;
    let h = rtcp::header(1, rtcp::PT_SDES, words);
    assert(h.len() == 4);
    assert(d.len() == 8 + items);
    assert(d.subrange(0, 4) =~= h);
    assert(d.subrange(4, 8) =~= wire::be32(ssrc));
    lemma_u32_in(d, 4, ssrc);
    assert(d[8] == rtcp::SDES_CNAME);
    assert(d[9] == name.len());
    let next = 10 + name.len() as int;
    assert(d.subrange(10, next) =~= name);
    assert(d[next] == 0);
    vstd::utf8::encode_utf8_valid_utf8(cname);
    vstd::utf8::encode_utf8_decode_utf8(cname);
    assert(rtcp::sdes_items(d, next, Some(cname)).0 == Some(cname));
    assert(rtcp::sdes_items(d, 8, None) == rtcp::sdes_items(d, next, Some(cname)));
    let (c, end) = rtcp::sdes_items(d, 8, None);
    assert(rtcp::sdes_chunks(d, end, 0) =~= Seq::empty());
    assert(rtcp::sdes_chunks(d, 4, 1) =~= seq![rtcp::ChunkModel { ssrc, cname: Some(cname) }]);
    law_first_packet(d, rest, 1, rtcp::PT_SDES, words);
}

/// A goodbye without a reason is read back with its first 31 sources, whatever
/// follows it.
pub proof fn law_bye_round_trip(sources: Seq<u32>, rest: Seq<u8>)
    ensures
        rtcp::parsed_compound(rtcp::bye_bytes(sources, None) + rest) == seq![
            rtcp::RtcpModel::Goodbye { sources: rtcp::first_31(sources), reason: None },
        ] + rtcp::parsed_compound(rest),
{
    let d = rtcp::bye_bytes(sources, None);
    lemma_bye_sources(sources, None);
    law_first_packet(
        d,
        rest,
        rtcp::header_count(sources.len()),
        rtcp::PT_BYE,
        rtcp::header_count(sources.len()),
    );
}

proof fn lemma_bye_sources(sources: Seq<u32>, reason: Option<Seq<u8>>)
    ensures
        ({
            let d = rtcp::bye_bytes(sources, reason);
            let n = rtcp::header_count(sources.len());
            let r = rtcp::reason_bytes(reason);
            &&& d.len() == 4 + 4 * n + r.len()
            &&& d.subrange(0, 4) == rtcp::header(n, rtcp::PT_BYE, (n + r.len() / 4) as nat)
            &&& rtcp::whole_items(d.len(), 4, 4, n) == n
            &&& Seq::new(n, |i: int| wire::u32_at(d, 4 + 4 * i)) == rtcp::first_31(sources)
            &&& d.subrange(4 + 4 * n as int, d.len() as int) == r
        }),
{
    let d = rtcp::bye_bytes(sources, reason);
    let n = rtcp::header_count(sources.len());
    let kept = rtcp::first_31(sources);
    let r = rtcp::reason_bytes(reason);
    rtcp::lemma_words_bytes(kept);
    let w = rtcp::words_bytes(kept);
    let h = rtcp::header(n, rtcp::PT_BYE, (n + r.len() / 4) as nat);
    assert(h.len() == 4);
    assert(d.subrange(0, 4) =~= h);
    let read = Seq::new(n, |i: int| wire::u32_at(d, 4 + 4 * i));
    assert forall|i: int| 0 <= i < n implies #[trigger] read[i] == kept[i] by {
        assert(w.subrange(4 * i, 4 * i + 4) == wire::be32(kept[i]));
        assert(d.subrange(4 + 4 * i, 8 + 4 * i) =~= w.subrange(4 * i, 4 * i + 4));
        lemma_u32_in(d, 4 + 4 * i, kept[i]);
    }
    assert(read =~= kept);
    assert(d.subrange(4 + 4 * n as int, d.len() as int) =~= r);
}

/// A goodbye with a reason of at most 255 bytes is read back, whatever follows it.
pub proof fn law_bye_reason_round_trip(sources: Seq<u32>, reason: Seq<char>, rest: Seq<u8>)
    requires
        rtcp::utf8_of(reason).len() <= 255,
    ensures
        rtcp::parsed_compound(
            rtcp::bye_bytes(sources, Some(rtcp::utf8_of(reason))) + rest,
        ) == seq![
            rtcp::RtcpModel::Goodbye { sources: rtcp::first_31(sources), reason: Some(reason) },
        ] + rtcp::parsed_compound(rest),
{
    let t = rtcp::utf8_of(reason);
    let d = rtcp::bye_bytes(sources, Some(t));
    let n = rtcp::header_count(sources.len());
    let r = rtcp::reason_bytes(Some(t));
    lemma_bye_sources(sources, Some(t));
    let o = 4 + 4 * n as int;
    assert(r[0] == t.len());
    assert(d.subrange(o, d.len() as int)[0] == d[o]);
    assert(r.subrange(1, 1 + t.len() as int) =~= t);
    assert(d.subrange(o + 1, o + 1 + t.len()) =~= d.subrange(o, d.len() as int).subrange(
        1,
        1 + t.len() as int,
    ));
    vstd::utf8::encode_utf8_valid_utf8(reason);
    vstd::utf8::encode_utf8_decode_utf8(reason);
    law_first_packet(d, rest, n, rtcp::PT_BYE, (n + r.len() / 4) as nat);
}

proof fn lemma_xr_shape(ssrc: u32, remote_ssrc: u32, m: Seq<u8>)
    requires
        m.len() == 28,
    ensures
        ({
            let d = rtcp::header(0, rtcp::PT_XR, 10) + wire::be32(ssrc) + seq![
                VoipMetrics::BLOCK_TYPE,
                0u8,
                0u8,
                8u8,
            ] + wire::be32(remote_ssrc) + m;
            &&& d.len() == 44
            &&& d.subrange(0, 4) == rtcp::header(0, rtcp::PT_XR, 10)
            &&& wire::u32_at(d, 4) == ssrc
            &&& d[8] == VoipMetrics::BLOCK_TYPE
            &&& wire::u16_at(d, 10) == 8
            &&& wire::u32_at(d, 12) == remote_ssrc
            &&& d.subrange(16, 44) == m
        }),
{
    let h = rtcp::header(0, rtcp::PT_XR, 10);
    assert(h.len() == 4);
    let d = h + wire::be32(ssrc) + seq![VoipMetrics::BLOCK_TYPE, 0u8, 0u8, 8u8] + wire::be32(
        remote_ssrc,
    ) + m;
    assert(d.subrange(0, 4) =~= h);
    assert(d.subrange(4, 8) =~= wire::be32(ssrc));
    lemma_u32_in(d, 4, ssrc);
    assert(d[8] == VoipMetrics::BLOCK_TYPE && d[10] == 0 && d[11] == 8);
    assert(d.subrange(12, 16) =~= wire::be32(remote_ssrc));
    lemma_u32_in(d, 12, remote_ssrc);
    assert(d.subrange(16, 44) =~= m);
}

proof fn lemma_xr_one_block(d: Seq<u8>, metrics: VoipMetrics)
    requires
        d.len() == 44,
        d[8] == VoipMetrics::BLOCK_TYPE,
        wire::u16_at(d, 10) == 8,
        VoipMetrics::at(d, 16) == metrics,
    ensures
        rtcp::xr_metrics(d, 8, None) == Some(
            VoipMetricsBlock { source_ssrc: wire::u32_at(d, 12), metrics },
        ),
{
    let block = Some(VoipMetricsBlock { source_ssrc: wire::u32_at(d, 12), metrics });
    assert(rtcp::xr_metrics(d, 44, block) == block);
    assert(rtcp::xr_metrics(d, 8, None) == rtcp::xr_metrics(d, 44, block));
}

proof fn lemma_metrics_len(m: VoipMetrics)
    ensures
        m.bytes().len() == 28,
{
}

/// An extended report is read back, whatever follows it.
#[verifier::spinoff_prover]
pub proof fn law_xr_round_trip(ssrc: u32, remote_ssrc: u32, metrics: VoipMetrics, rest: Seq<u8>)
    ensures
        rtcp::parsed_compound(rtcp::xr_bytes(ssrc, remote_ssrc, metrics) + rest) == seq![
            rtcp::RtcpModel::ExtendedReport {
                ssrc,
                metrics: Some(VoipMetricsBlock { source_ssrc: remote_ssrc, metrics }),
            },
        ] + rtcp::parsed_compound(rest),
{
    let d = rtcp::xr_bytes(ssrc, remote_ssrc, metrics);
    lemma_metrics_len(metrics);
    lemma_xr_shape(ssrc, remote_ssrc, metrics.bytes());
    lemma_metrics_read(d, 16, metrics);
    lemma_xr_one_block(d, metrics);
    law_first_packet(d, rest, 0, rtcp::PT_XR, 10);
}

/// What is read, as a name of its own.
#[verifier::opaque]
spec fn read(d: Seq<u8>) -> Seq<rtcp::RtcpModel> {
    rtcp::parsed_compound(d)
}

proof fn lemma_joined(
    a: Seq<u8>,
    b: Seq<u8>,
    c: Seq<u8>,
    m0: rtcp::RtcpModel,
    m1: rtcp::RtcpModel,
)
    requires
        read(a + (b + c)) == seq![m0] + read(b + c),
        read(b + c) == seq![m1] + read(c),
    ensures
        read(a + b + c) == seq![m0, m1] + read(c),
{
    assert(a + b + c =~= a + (b + c));
    assert(seq![m0] + (seq![m1] + read(c)) =~= seq![m0, m1] + read(c));
}

proof fn lemma_read_sr(
    ssrc: u32,
    ntp: NtpTimestamp,
    rtp_timestamp: u32,
    packet_count: u32,
    octet_count: u32,
    blocks: Seq<ReportBlock>,
    d: Seq<u8>,
    rest: Seq<u8>,
)
    requires
        forall|i: int| 0 <= i < blocks.len() ==> (#[trigger] blocks[i]).fits(),
        d == rtcp::sender_report_bytes(
            ssrc,
            ntp,
            rtp_timestamp,
            packet_count,
            octet_count,
            blocks,
        ),
    ensures
        read(d + rest) == seq![
            rtcp::RtcpModel::SenderReport {
                ssrc,
                ntp,
                rtp_timestamp,
                packet_count,
                octet_count,
                blocks: rtcp::first_31(blocks),
            },
        ] + read(rest),
{
    reveal(read);
    law_sender_report_round_trip(
        ssrc,
        ntp,
        rtp_timestamp,
        packet_count,
        octet_count,
        blocks,
        rest,
    );
}

proof fn lemma_read_rr(ssrc: u32, blocks: Seq<ReportBlock>, d: Seq<u8>, rest: Seq<u8>)
    requires
        forall|i: int| 0 <= i < blocks.len() ==> (#[trigger] blocks[i]).fits(),
        d == rtcp::receiver_report_bytes(ssrc, blocks),
    ensures
        read(d + rest) == seq![
            rtcp::RtcpModel::ReceiverReport { ssrc, blocks: rtcp::first_31(blocks) },
        ] + read(rest),
{
    reveal(read);
    law_receiver_report_round_trip(ssrc, blocks, rest);
}

proof fn lemma_read_sdes(ssrc: u32, cname: Seq<char>, d: Seq<u8>, rest: Seq<u8>)
    requires
        rtcp::utf8_of(cname).len() <= 255,
        d == rtcp::sdes_bytes(ssrc, rtcp::utf8_of(cname)),
    ensures
        read(d + rest) == seq![
            rtcp::RtcpModel::SourceDescription {
                chunks: seq![rtcp::ChunkModel { ssrc, cname: Some(cname) }],
            },
        ] + read(rest),
{
    reveal(read);
    law_sdes_round_trip(ssrc, cname, rest);
}

proof fn lemma_two_parts(
    a: Seq<u8>,
    b: Seq<u8>,
    rest: Seq<u8>,
    m0: rtcp::RtcpModel,
    m1: rtcp::RtcpModel,
)
    requires
        read(a + (b + rest)) == seq![m0] + read(b + rest),
        read(b + rest) == seq![m1] + read(rest),
    ensures
        rtcp::parsed_compound(a + b + rest) == seq![m0, m1] + rtcp::parsed_compound(rest),
{
    lemma_joined(a, b, rest, m0, m1);
    reveal(read);
}

/// A sender report with a name behind it is read back, whatever follows.
pub proof fn law_compound_sr_round_trip(
    ssrc: u32,
    ntp: NtpTimestamp,
    rtp_timestamp: u32,
    packet_count: u32,
    octet_count: u32,
    blocks: Seq<ReportBlock>,
    cname: Seq<char>,
    rest: Seq<u8>,
)
    requires
        forall|i: int| 0 <= i < blocks.len() ==> (#[trigger] blocks[i]).fits(),
        rtcp::utf8_of(cname).len() <= 255,
    ensures
        rtcp::parsed_compound(
            rtcp::sender_report_bytes(
                ssrc,
                ntp,
                rtp_timestamp,
                packet_count,
                octet_count,
                blocks,
            ) + rtcp::sdes_bytes(ssrc, rtcp::utf8_of(cname)) + rest,
        ) == seq![
            rtcp::RtcpModel::SenderReport {
                ssrc,
                ntp,
                rtp_timestamp,
                packet_count,
                octet_count,
                blocks: rtcp::first_31(blocks),
            },
            rtcp::RtcpModel::SourceDescription {
                chunks: seq![rtcp::ChunkModel { ssrc, cname: Some(cname) }],
            },
        ] + rtcp::parsed_compound(rest),
{
    let a = rtcp::sender_report_bytes(
        ssrc,
        ntp,
        rtp_timestamp,
        packet_count,
        octet_count,
        blocks,
    );
    let b = rtcp::sdes_bytes(ssrc, rtcp::utf8_of(cname));
    lemma_read_sr(
        ssrc,
        ntp,
        rtp_timestamp,
        packet_count,
        octet_count,
        blocks,
        a,
        b + rest,
    );
    lemma_read_sdes(ssrc, cname, b, rest);
    lemma_two_parts(
        a,
        b,
        rest,
        rtcp::RtcpModel::SenderReport {
            ssrc,
            ntp,
            rtp_timestamp,
            packet_count,
            octet_count,
            blocks: rtcp::first_31(blocks),
        },
        rtcp::RtcpModel::SourceDescription {
            chunks: seq![rtcp::ChunkModel { ssrc, cname: Some(cname) }],
        },
    );
}

/// A receiver report with a name behind it is read back, whatever follows.
pub proof fn law_compound_rr_round_trip(
    ssrc: u32,
    blocks: Seq<ReportBlock>,
    cname: Seq<char>,
    rest: Seq<u8>,
)
    requires
        forall|i: int| 0 <= i < blocks.len() ==> (#[trigger] blocks[i]).fits(),
        rtcp::utf8_of(cname).len() <= 255,
    ensures
        rtcp::parsed_compound(
            rtcp::receiver_report_bytes(ssrc, blocks) + rtcp::sdes_bytes(
                ssrc,
                rtcp::utf8_of(cname),
            ) + rest,
        ) == seq![
            rtcp::RtcpModel::ReceiverReport { ssrc, blocks: rtcp::first_31(blocks) },
            rtcp::RtcpModel::SourceDescription {
                chunks: seq![rtcp::ChunkModel { ssrc, cname: Some(cname) }],
            },
        ] + rtcp::parsed_compound(rest),
{
    let a = rtcp::receiver_report_bytes(ssrc, blocks);
    let b = rtcp::sdes_bytes(ssrc, rtcp::utf8_of(cname));
    lemma_read_rr(ssrc, blocks, a, b + rest);
    lemma_read_sdes(ssrc, cname, b, rest);
    lemma_two_parts(
        a,
        b,
        rest,
        rtcp::RtcpModel::ReceiverReport { ssrc, blocks: rtcp::first_31(blocks) },
        rtcp::RtcpModel::SourceDescription {
            chunks: seq![rtcp::ChunkModel { ssrc, cname: Some(cname) }],
        },
    );
}

proof fn lemma_xr_alone(ssrc: u32, remote_ssrc: u32, metrics: VoipMetrics)
    ensures
        rtcp::parsed_compound(rtcp::xr_bytes(ssrc, remote_ssrc, metrics)) == seq![
            rtcp::RtcpModel::ExtendedReport {
                ssrc,
                metrics: Some(VoipMetricsBlock { source_ssrc: remote_ssrc, metrics }),
            },
        ],
{
    let none = Seq::<u8>::empty();
    let xr = rtcp::xr_bytes(ssrc, remote_ssrc, metrics);
    law_xr_round_trip(ssrc, remote_ssrc, metrics, none);
    assert(xr + none =~= xr);
    assert(rtcp::parsed_compound(none) =~= Seq::empty());
}

/// What the other side reads of a session's compound packet: the report, the
/// name, and the extended report where there was room for one.
#[verifier::spinoff_prover]
#[verifier::rlimit(60)]
pub proof fn law_session_report_read_back(
    s: RtcpSession,
    jitter: u32,
    q: QualityScores,
    now_ns: u64,
    ntp: NtpTimestamp,
    room: nat,
)
    requires
        rtcp::utf8_of(s.cname@).len() <= 255,
    ensures
        rtcp::parsed_compound(s.compound_bytes(jitter, q, now_ns, ntp, room)) == seq![
            if s.packets_sent > 0 {
                rtcp::RtcpModel::SenderReport {
                    ssrc: s.local_ssrc,
                    ntp,
                    rtp_timestamp: s.last_rtp_timestamp,
                    packet_count: s.packets_sent,
                    octet_count: s.octets_sent,
                    blocks: s.report_blocks(jitter, now_ns),
                }
            } else {
                rtcp::RtcpModel::ReceiverReport {
                    ssrc: s.local_ssrc,
                    blocks: s.report_blocks(jitter, now_ns),
                }
            },
            rtcp::RtcpModel::SourceDescription {
                chunks: seq![rtcp::ChunkModel { ssrc: s.local_ssrc, cname: Some(s.cname@) }],
            },
        ] + if s.has_xr(room) {
            seq![
                rtcp::RtcpModel::ExtendedReport {
                    ssrc: s.local_ssrc,
                    metrics: Some(
                        VoipMetricsBlock {
                            source_ssrc: s.remote_ssrc->Some_0,
                            metrics: s.voice_metrics(q),
                        },
                    ),
                },
            ]
        } else {
            Seq::empty()
        },
{
    let blocks = s.report_blocks(jitter, now_ns);
    assert(rtcp::first_31(blocks) =~= blocks);
    let xr = if s.has_xr(room) {
        rtcp::xr_bytes(s.local_ssrc, s.remote_ssrc->Some_0, s.voice_metrics(q))
    } else {
        Seq::empty()
    };
    if s.has_xr(room) {
        lemma_xr_alone(s.local_ssrc, s.remote_ssrc->Some_0, s.voice_metrics(q));
    } else {
        assert(rtcp::parsed_compound(xr) =~= Seq::empty());
    }
    if s.packets_sent > 0 {
        law_compound_sr_round_trip(
            s.local_ssrc,
            ntp,
            s.last_rtp_timestamp,
            s.packets_sent,
            s.octets_sent,
            blocks,
            s.cname@,
            xr,
        );
    } else {
        law_compound_rr_round_trip(s.local_ssrc, blocks, s.cname@, xr);
    }
}

/// A source whose packets come one by one in sequence loses nothing: each is
/// counted once as expected and once as received.
pub proof fn law_in_order_no_loss(s: RtcpSession, ssrc: u32, ts: u32, now_ns: u64)
    requires
        s.first_packet_received,
        s.remote_ssrc == Some(ssrc),
        s.seq_cycles < 0xFFFF,
        s.base_seq <= s.extended(),
        s.expected_packets == s.expected(),
        s.expected_packets < u32::MAX,
        s.packets_received < u32::MAX,
    ensures
        ({
            let t = s.received(ssrc, s.highest_seq.wrapping_add(1), ts, now_ns);
            &&& t.expected_packets == s.expected_packets + 1
            &&& t.packets_received == s.packets_received + 1
            &&& t.expected_packets - t.packets_received == s.expected_packets
                - s.packets_received
        }),
{
}

/// A packet that comes late, by less than a hundred, is counted as received and
/// moves nothing else.
pub proof fn law_late_packet_only_counts(
    s: RtcpSession,
    ssrc: u32,
    behind: u16,
    ts: u32,
    now_ns: u64,
)
    requires
        s.first_packet_received,
        s.remote_ssrc == Some(ssrc),
        s.packets_received < u32::MAX,
        1 <= behind <= 99,
    ensures
        ({
            let t = s.received(ssrc, s.highest_seq.wrapping_sub(behind), ts, now_ns);
            &&& t.packets_received == s.packets_received + 1
            &&& t.highest_seq == s.highest_seq
            &&& t.seq_cycles == s.seq_cycles
            &&& t.base_seq == s.base_seq
        }),
{
}

} // verus!
