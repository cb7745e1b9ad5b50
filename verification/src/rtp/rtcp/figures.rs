//! What the figures in a report mean.

use crate::rtp::jitter::JitterStep;
use crate::rtp::rtcp;
use crate::rtp::rtcp::layout;
use crate::rtp::rtcp::session;
use crate::rtp::rtcp::session::{QualityScores, RtcpSession};
use crate::rtp::rtcp::{NtpTimestamp, ReportBlock};
use crate::wire;
use vstd::prelude::*;

verus! {

/// Where the first report block stands in a compound packet: behind the 28
/// bytes that open a sender's report, or the eight that open a receiver's.
pub open spec fn first_block(s: RtcpSession) -> int {
    if s.packets_sent > 0 {
        28
    } else {
        8
    }
}

proof fn lemma_first_block(
    s: RtcpSession,
    jitter: u32,
    q: QualityScores,
    now_ns: u64,
    ntp: NtpTimestamp,
    room: nat,
)
    requires
        s.remote_ssrc is Some,
    ensures
        ({
            let bytes = s.compound_bytes(jitter, q, now_ns, ntp, room);
            let at = first_block(s);
            &&& bytes.len() >= at + 24
            &&& bytes.subrange(at, at + 24) == s.report_block(jitter, now_ns).bytes()
            &&& s.report_block(jitter, now_ns).bytes().len() == 24
        }),
{
    let blocks = s.report_blocks(jitter, now_ns);
    let b = s.report_block(jitter, now_ns);
    assert(rtcp::first_31(blocks) =~= blocks);
    assert(blocks.drop_last() =~= Seq::empty());
    reveal_with_fuel(rtcp::blocks_bytes, 2);
    assert(rtcp::blocks_bytes(blocks) =~= b.bytes());
    let bytes = s.compound_bytes(jitter, q, now_ns, ntp, room);
    let at = first_block(s);
    assert(b.bytes().len() == 24);
    assert(ntp.bytes().len() == 8);
    assert(bytes.subrange(at, at + 24) =~= b.bytes());
}

proof fn lemma_fraction_byte(
    s: RtcpSession,
    jitter: u32,
    q: QualityScores,
    now_ns: u64,
    ntp: NtpTimestamp,
    room: nat,
)
    requires
        s.remote_ssrc is Some,
    ensures
        s.compound_bytes(jitter, q, now_ns, ntp, room)[first_block(s) + 4] == s.fraction_lost(),
{
    lemma_first_block(s, jitter, q, now_ns, ntp, room);
    let bytes = s.compound_bytes(jitter, q, now_ns, ntp, room);
    let b = s.report_block(jitter, now_ns);
    let at = first_block(s);
    assert(bytes[at + 4] == bytes.subrange(at, at + 24)[4]);
    assert(b.bytes()[4] == b.fraction_lost);
}

proof fn lemma_fraction(s: RtcpSession, expected: int, received: int)
    requires
        expected == s.expected_packets - s.last_rr_expected_packets,
        received == s.packets_received - s.last_rr_packets_received,
        0 <= expected < 0x8000_0000,
        0 <= received < 0x8000_0000,
    ensures
        ({
            let f = s.fraction_lost() as int;
            &&& received >= expected ==> f == 0
            &&& 0 < received < expected ==> f * expected <= 256 * (expected - received) < (f + 1)
                * expected
            &&& received == 0 && expected > 0 ==> f == 255
        }),
{
    if received < expected {
        let lost = expected - received;
        let f = lost * 256 / expected;
        vstd::arithmetic::div_mod::lemma_fundamental_div_mod(lost * 256, expected);
        if received > 0 {
            assert(f <= 255 && f * expected <= 256 * lost < (f + 1) * expected) by (nonlinear_arith)
                requires
                    0 < lost < expected,
                    lost * 256 == expected * f + (lost * 256) % expected,
                    0 <= (lost * 256) % expected < expected,
            ;
            assert(f >= 0) by (nonlinear_arith)
                requires
                    0 < lost < expected,
                    lost * 256 == expected * f + (lost * 256) % expected,
                    0 <= (lost * 256) % expected < expected,
            ;
        } else {
            assert(f == 256) by (nonlinear_arith)
                requires
                    lost == expected,
                    expected > 0,
                    lost * 256 == expected * f + (lost * 256) % expected,
                    0 <= (lost * 256) % expected < expected,
            ;
        }
    }
}

/// The share of losses that a report carries: of the packets expected since the
/// last report, as many 256ths were lost as the byte says, rounded down; 255
/// where all were lost, and none where no fewer came than were expected. Counts
/// from half the range of their fields on are left out: they are read with a
/// sign.
pub proof fn law_fraction_lost(
    s: RtcpSession,
    jitter: u32,
    q: QualityScores,
    now_ns: u64,
    ntp: NtpTimestamp,
    room: nat,
    expected: int,
    received: int,
)
    requires
        s.remote_ssrc is Some,
        expected == s.expected_packets - s.last_rr_expected_packets,
        received == s.packets_received - s.last_rr_packets_received,
        0 <= expected < 0x8000_0000,
        0 <= received < 0x8000_0000,
    ensures
        ({
            let f = s.compound_bytes(jitter, q, now_ns, ntp, room)[first_block(s) + 4] as int;
            &&& received >= expected ==> f == 0
            &&& 0 < received < expected ==> f * expected <= 256 * (expected - received) < (f + 1)
                * expected
            &&& received == 0 && expected > 0 ==> f == 255
        }),
{
    lemma_fraction_byte(s, jitter, q, now_ns, ntp, room);
    lemma_fraction(s, expected, received);
}

/// The loss in all that a report carries: the packets expected without those
/// received, in 24 bits with sign; what is out of their range stays at its end.
pub proof fn law_cumulative_lost(
    s: RtcpSession,
    jitter: u32,
    q: QualityScores,
    now_ns: u64,
    ntp: NtpTimestamp,
    room: nat,
)
    requires
        s.remote_ssrc is Some,
        s.expected_packets < 0x8000_0000,
        s.packets_received < 0x8000_0000,
    ensures
        ({
            let bytes = s.compound_bytes(jitter, q, now_ns, ntp, room);
            let at = first_block(s);
            let lost = s.expected_packets - s.packets_received;
            let word = wire::number(bytes.subrange(at + 5, at + 8));
            &&& 0 <= lost < 0x80_0000 ==> word == lost
            &&& -0x80_0000 < lost < 0 ==> word == 0x100_0000 + lost
            &&& lost >= 0x80_0000 ==> word == 0x7F_FFFF
            &&& lost <= -0x80_0000 ==> word == 0x80_0001
        }),
{
    lemma_first_block(s, jitter, q, now_ns, ntp, room);
    let bytes = s.compound_bytes(jitter, q, now_ns, ntp, room);
    let b = s.report_block(jitter, now_ns);
    let at = first_block(s);
    law_block_layout(b);
    assert(bytes.subrange(at + 5, at + 8) =~= bytes.subrange(at, at + 24).subrange(5, 8));
    let lost = s.expected_packets - s.packets_received;
    assert(s.lost() == lost);
    lemma_sign24(lost);
    lemma_sign24(0x7F_FFFF);
    lemma_sign24(-0x7F_FFFF);
}

proof fn lemma_sign24(x: int)
    ensures
        0 <= x < 0x100_0000 ==> x % 0x100_0000 == x,
        -0x100_0000 <= x < 0 ==> x % 0x100_0000 == x + 0x100_0000,
{
}

pub(crate) proof fn lemma_be24(x: int)
    ensures
        rtcp::be24(x).len() == 3,
        wire::number(rtcp::be24(x)) == x % 0x100_0000,
{
    let w = rtcp::be24(x);
    reveal_with_fuel(wire::number, 4);
    assert(w.drop_last().drop_last().drop_last() =~= Seq::<u8>::empty());
    assert(w.drop_last().drop_last().last() == w[0]);
    assert(w.drop_last().last() == w[1]);
}

/// The other figures in a block: the source that is heard, the highest sequence
/// number with its wraps, the jitter that was handed over, and the time of the
/// last report of a sender.
pub proof fn law_block_figures(
    s: RtcpSession,
    jitter: u32,
    q: QualityScores,
    now_ns: u64,
    ntp: NtpTimestamp,
    room: nat,
)
    requires
        s.remote_ssrc is Some,
    ensures
        ({
            let bytes = s.compound_bytes(jitter, q, now_ns, ntp, room);
            let at = first_block(s);
            &&& wire::number(bytes.subrange(at, at + 4)) == s.remote_ssrc->0
            &&& wire::number(bytes.subrange(at + 8, at + 12)) == s.highest_ext_seq
            &&& wire::number(bytes.subrange(at + 12, at + 16)) == jitter
            &&& wire::number(bytes.subrange(at + 16, at + 20)) == s.last_sr_ntp_compact
            &&& s.last_sr_received_at is None ==> wire::number(bytes.subrange(at + 20, at + 24))
                == 0
        }),
{
    lemma_first_block(s, jitter, q, now_ns, ntp, room);
    let bytes = s.compound_bytes(jitter, q, now_ns, ntp, room);
    let b = s.report_block(jitter, now_ns);
    let at = first_block(s);
    law_block_layout(b);
    let c = bytes.subrange(at, at + 24);
    assert(bytes.subrange(at, at + 4) =~= c.subrange(0, 4));
    assert(bytes.subrange(at + 8, at + 12) =~= c.subrange(8, 12));
    assert(bytes.subrange(at + 12, at + 16) =~= c.subrange(12, 16));
    assert(bytes.subrange(at + 16, at + 20) =~= c.subrange(16, 20));
    assert(bytes.subrange(at + 20, at + 24) =~= c.subrange(20, 24));
}

/// Where the figures of a report block stand.
pub proof fn law_block_layout(b: ReportBlock)
    ensures
        b.bytes().len() == 24,
        wire::number(b.bytes().subrange(0, 4)) == b.ssrc,
        b.bytes()[4] == b.fraction_lost,
        wire::number(b.bytes().subrange(5, 8)) == b.cumulative_lost as int % 0x100_0000,
        wire::number(b.bytes().subrange(8, 12)) == b.extended_highest_seq,
        wire::number(b.bytes().subrange(12, 16)) == b.jitter,
        wire::number(b.bytes().subrange(16, 20)) == b.last_sr,
        wire::number(b.bytes().subrange(20, 24)) == b.delay_since_last_sr,
{
    let c = b.bytes();
    wire::law_bytes_stand_for_number(0, b.ssrc, 0);
    wire::law_bytes_stand_for_number(0, b.extended_highest_seq, 0);
    wire::law_bytes_stand_for_number(0, b.jitter, 0);
    wire::law_bytes_stand_for_number(0, b.last_sr, 0);
    wire::law_bytes_stand_for_number(0, b.delay_since_last_sr, 0);
    lemma_be24(b.cumulative_lost as int);
    assert(c.subrange(0, 4) =~= wire::be32(b.ssrc));
    assert(c.subrange(5, 8) =~= rtcp::be24(b.cumulative_lost as int));
    assert(c.subrange(8, 12) =~= wire::be32(b.extended_highest_seq));
    assert(c.subrange(12, 16) =~= wire::be32(b.jitter));
    assert(c.subrange(16, 20) =~= wire::be32(b.last_sr));
    assert(c.subrange(20, 24) =~= wire::be32(b.delay_since_last_sr));
}

/// The delay since a sender's report, in 65536ths of a second: no more than
/// has passed, and less by under a unit and a microsecond. From 65536 seconds on
/// the whole seconds stay at 65535.
pub proof fn law_delay_reported(
    s: RtcpSession,
    jitter: u32,
    q: QualityScores,
    now_ns: u64,
    ntp: NtpTimestamp,
    room: nat,
    heard_at: u64,
)
    requires
        s.remote_ssrc is Some,
        s.last_sr_received_at == Some(heard_at),
        heard_at <= now_ns,
        now_ns - heard_at < 65536 * 1_000_000_000,
    ensures
        ({
            let bytes = s.compound_bytes(jitter, q, now_ns, ntp, room);
            let at = first_block(s);
            let units = wire::number(bytes.subrange(at + 20, at + 24));
            let ns = now_ns - heard_at;
            units * 1_000_000_000 <= ns * 0x1_0000 < (units + 1) * 1_000_000_000 + 1000 * 0x1_0000
        }),
{
    lemma_first_block(s, jitter, q, now_ns, ntp, room);
    let bytes = s.compound_bytes(jitter, q, now_ns, ntp, room);
    let b = s.report_block(jitter, now_ns);
    let at = first_block(s);
    law_block_layout(b);
    assert(bytes.subrange(at + 20, at + 24) =~= bytes.subrange(at, at + 24).subrange(20, 24));
    let ns = now_ns - heard_at;
    let secs = ns / 1_000_000_000;
    let rest = ns % 1_000_000_000;
    let us = rest / 1000;
    assert(secs <= 65535);
    assert(us * 0x1_0000 / 1_000_000 <= 65535);
    assert(session::dlsr_units(ns) == secs * 0x1_0000 + us * 0x1_0000 / 1_000_000);
    assert(0 <= session::dlsr_units(ns) <= u32::MAX);
}

/// The highest of places in a stream.
pub open spec fn highest(places: Seq<int>) -> int
    decreases places.len(),
{
    if places.len() <= 1 {
        places[0]
    } else {
        let before = highest(places.drop_last());
        if places.last() > before {
            places.last()
        } else {
            before
        }
    }
}

/// Packets that come near each other: each less than 3000 places ahead of the
/// highest so far, and at most a hundred behind it.
pub open spec fn near(places: Seq<int>) -> bool
    decreases places.len(),
{
    places.len() <= 1 || (near(places.drop_last()) && highest(places.drop_last()) - 100
        <= places.last() < highest(places.drop_last()) + 3000)
}

/// The session after packets of one source that have these places in its
/// stream; of a place, the sequence number is what it leaves.
pub open spec fn heard(
    s: RtcpSession,
    ssrc: u32,
    places: Seq<int>,
    ts: spec_fn(int) -> u32,
    now_ns: spec_fn(int) -> u64,
) -> RtcpSession
    decreases places.len(),
{
    if places.len() == 0 {
        s
    } else {
        let n = places.len() - 1;
        heard(s, ssrc, places.drop_last(), ts, now_ns).received(
            ssrc,
            (places.last() % 0x1_0000) as u16,
            ts(n),
            now_ns(n),
        )
    }
}

/// However packets are lost, swapped or doubled, and over any number of wraps:
/// as many are counted as came, and as many expected as there are places from
/// the first to the highest.
pub proof fn law_stream_counted(
    s: RtcpSession,
    ssrc: u32,
    places: Seq<int>,
    ts: spec_fn(int) -> u32,
    now_ns: spec_fn(int) -> u64,
)
    requires
        !s.first_packet_received,
        s.packets_received == 0,
        s.remote_ssrc is None || s.remote_ssrc == Some(ssrc),
        0 < places.len() <= u32::MAX,
        0 <= places[0] < 0x1_0000,
        near(places),
        highest(places) < 0xFFFF_FFFF,
    ensures
        ({
            let t = heard(s, ssrc, places, ts, now_ns);
            &&& t.remote_ssrc == Some(ssrc)
            &&& t.packets_received == places.len()
            &&& t.expected_packets == highest(places) - places[0] + 1
            &&& t.highest_ext_seq == highest(places)
        }),
{
    lemma_stream(s, ssrc, places, ts, now_ns);
}

proof fn lemma_stream(
    s: RtcpSession,
    ssrc: u32,
    places: Seq<int>,
    ts: spec_fn(int) -> u32,
    now_ns: spec_fn(int) -> u64,
)
    requires
        !s.first_packet_received,
        s.packets_received == 0,
        s.remote_ssrc is None || s.remote_ssrc == Some(ssrc),
        0 < places.len() <= u32::MAX,
        0 <= places[0] < 0x1_0000,
        near(places),
        highest(places) < 0xFFFF_FFFF,
    ensures
        ({
            let t = heard(s, ssrc, places, ts, now_ns);
            let h = highest(places);
            &&& h >= places[0]
            &&& t.remote_ssrc == Some(ssrc)
            &&& t.first_packet_received
            &&& t.packets_received == places.len()
            &&& t.base_seq == places[0]
            &&& t.seq_cycles == h / 0x1_0000
            &&& t.highest_seq == h % 0x1_0000
            &&& t.expected_packets == h - places[0] + 1
            &&& t.highest_ext_seq == h
        }),
    decreases places.len(),
{
    let before = places.drop_last();
    let p = places.last();
    let seq = (p % 0x1_0000) as u16;
    if places.len() == 1 {
        assert(heard(s, ssrc, before, ts, now_ns) == s);
        let t = heard(s, ssrc, places, ts, now_ns);
        assert(p % 0x1_0000 == p && p / 0x1_0000 == 0);
        assert(t == s.received(ssrc, seq, ts(0), now_ns(0)));
        let v = s.with_source(ssrc).with_sequence(seq);
        assert(!s.with_source(ssrc).first_packet_received);
        assert(s.with_source(ssrc).packets_received == 0);
        assert(v.packets_received == 1 && v.base_seq == p && v.highest_seq == p);
        assert(v.extended() == p);
        assert(places[0] == p);
    } else {
        assert(before[0] == places[0]);
        lemma_stream(s, ssrc, before, ts, now_ns);
        let u = heard(s, ssrc, before, ts, now_ns);
        let h = highest(before);
        lemma_ahead(h, p);
        lemma_wraps(h, p);
        assert(u.with_source(ssrc) == u);
        let v = u.with_sequence(seq);
        let t = heard(s, ssrc, places, ts, now_ns);
        assert(t == u.received(ssrc, seq, ts(places.len() - 1), now_ns(places.len() - 1)));
        let g = highest(places);
        assert(g / 0x1_0000 < 0x1_0000);
        assert(v.packets_received == places.len());
        assert(v.seq_cycles == g / 0x1_0000 && v.highest_seq == g % 0x1_0000);
        assert(v.extended() == g);
    }
}

proof fn lemma_ahead(h: int, p: int)
    requires
        h - 100 <= p < h + 3000,
    ensures
        ({
            let seq = (p % 0x1_0000) as u16;
            let high = (h % 0x1_0000) as u16;
            let ahead = seq.wrapping_sub(high);
            &&& p >= h ==> ahead == p - h
            &&& p < h ==> ahead == p - h + 0x1_0000
        }),
{
    let seq = p % 0x1_0000;
    let high = h % 0x1_0000;
    assert((seq - high) % 0x1_0000 == (p - h) % 0x1_0000) by {
        vstd::arithmetic::div_mod::lemma_sub_mod_noop(p, h, 0x1_0000);
    }
}

proof fn lemma_wraps(h: int, p: int)
    requires
        0 <= h <= p < h + 3000 || 0 <= h && h - 100 <= p < h,
    ensures
        h <= p ==> p / 0x1_0000 == h / 0x1_0000 + if p % 0x1_0000 < h % 0x1_0000 {
            1int
        } else {
            0int
        },
{
}

/// A packet far from the ones before, by 3000 places or more ahead and by more
/// than a hundred behind, starts the counts anew: one expected, one received.
pub proof fn law_far_packet_starts_over(
    s: RtcpSession,
    ssrc: u32,
    ahead: int,
    ts: u32,
    now_ns: u64,
)
    requires
        s.first_packet_received,
        s.remote_ssrc == Some(ssrc),
        3000 <= ahead < 0x1_0000 - 100,
    ensures
        ({
            let seq = ((s.highest_seq + ahead) % 0x1_0000) as u16;
            let t = s.received(ssrc, seq, ts, now_ns);
            &&& t.packets_received == 1
            &&& t.expected_packets == 1
            &&& t.highest_ext_seq == seq
            &&& t.expected_interval() == 1
            &&& t.received_interval() == 1
        }),
{
    let seq = ((s.highest_seq + ahead) % 0x1_0000) as u16;
    assert(seq.wrapping_sub(s.highest_seq) == ahead);
}

/// A new source starts from nothing: its first packet is the one expected and
/// the one received, whatever was counted before.
pub proof fn law_new_source_counted_alone(
    s: RtcpSession,
    old_ssrc: u32,
    ssrc: u32,
    seq: u16,
    ts: u32,
    now_ns: u64,
)
    requires
        s.remote_ssrc == Some(old_ssrc),
        old_ssrc != ssrc,
    ensures
        ({
            let t = s.received(ssrc, seq, ts, now_ns);
            &&& t.remote_ssrc == Some(ssrc)
            &&& t.packets_received == 1
            &&& t.expected_packets == 1
            &&& t.highest_ext_seq == seq
            &&& t.last_rr_packets_received == 0 && t.last_rr_expected_packets == 0
            &&& t.last_sr_ntp_compact == 0 && t.last_sr_received_at is None
            &&& s.jitter_step(ssrc, ts, now_ns) == JitterStep::Reset
        }),
{
}

/// `arrival` is the time between two packets in timestamp units, short of it by
/// less than a unit and a microsecond; `spacing` is the difference of their
/// timestamps, which wrap.
pub open spec fn apart(
    s: RtcpSession,
    ts: u32,
    ns: int,
    arrival: int,
    spacing: int,
) -> bool {
    &&& arrival * 1_000_000_000 <= ns * s.clock_rate < (arrival + 1) * 1_000_000_000 + 1000
        * s.clock_rate
    &&& -0x8000_0000 <= spacing < 0x8000_0000
    &&& (s.last_recv_rtp_ts + spacing - ts) % 0x1_0000_0000 == 0
}

/// The deviation by which jitter is measured: how far the time between two
/// packets is from the time between their timestamps.
pub proof fn law_deviation_measured(s: RtcpSession, ssrc: u32, ts: u32, now_ns: u64, last: u64)
    requires
        s.remote_ssrc == Some(ssrc),
        s.last_recv_time == Some(last),
        last <= now_ns,
        ((now_ns - last) / 1000) * s.clock_rate <= i64::MAX,
    ensures
        exists|arrival: int, spacing: int|
            {
                &&& #[trigger] apart(s, ts, now_ns - last, arrival, spacing)
                &&& s.jitter_step(ssrc, ts, now_ns) matches JitterStep::Deviation(d)
                &&& d == arrival - spacing || d == spacing - arrival
            },
{
    let ns = now_ns - last;
    let us = ns / 1000;
    let r = s.clock_rate as int;
    let arrival = us * r / 1_000_000;
    let spacing = session::signed32(ts.wrapping_sub(s.last_recv_rtp_ts));
    assert(us * 1000 * r <= ns * r < us * 1000 * r + 1000 * r || r == 0) by (nonlinear_arith)
        requires
            us * 1000 <= ns < us * 1000 + 1000,
            r >= 0,
    ;
    assert(us * 1000 * r == 1000 * (us * r)) by (nonlinear_arith);
    assert(0 <= us * r) by (nonlinear_arith)
        requires
            us >= 0,
            r >= 0,
    ;
    if r == 0 {
        assert(us * r == 0 && ns * r == 0) by (nonlinear_arith)
            requires
                r == 0,
        ;
    }
    assert(apart(s, ts, ns, arrival, spacing));
    assert(0 <= s.deviation(ts, now_ns) <= u64::MAX);
}

/// What lay at the other side, as a block tells it, in nanoseconds: short of it
/// by less than a microsecond.
pub open spec fn lay(rb: ReportBlock, ns: int) -> bool {
    ns * 0x1_0000 <= rb.delay_since_last_sr * 1_000_000_000 < (ns + 1000) * 0x1_0000
}

/// The round trip that a block shows, where our report went out at `sent`: the
/// time since then without the time that the report lay at the other side. One
/// that would be negative, or 30 seconds or more, is not believed.
pub proof fn law_round_trip_time(
    s: RtcpSession,
    rb: ReportBlock,
    sent: u64,
    now_ns: u64,
    now_compact: u32,
)
    requires
        s.last_sr_sent_at == Some(sent),
        sent <= now_ns,
    ensures
        exists|ns: int|
            {
                &&& #[trigger] lay(rb, ns)
                &&& match s.rtt_of(rb, now_ns, now_compact) {
                    Some(t) => t + ns == now_ns - sent && t < 30_000_000_000,
                    None => now_ns - sent < ns || now_ns - sent - ns >= 30_000_000_000,
                }
            },
{
    let ns = (rb.delay_since_last_sr * 1_000_000 / 0x1_0000) * 1000;
    assert(lay(rb, ns));
}

/// Where none of our reports is known to have gone out, the clock times in the
/// block tell: those of now, of the report and of the delay, which wrap.
pub proof fn law_round_trip_by_clock(
    s: RtcpSession,
    rb: ReportBlock,
    now_ns: u64,
    now_compact: u32,
    units: int,
)
    requires
        s.last_sr_sent_at is None,
        0 <= units < 0x1_0000_0000,
        (rb.last_sr + rb.delay_since_last_sr + units - now_compact) % 0x1_0000_0000 == 0,
    ensures
        match s.rtt_of(rb, now_ns, now_compact) {
            Some(t) => t * 0x1_0000 <= units * 1_000_000_000 < (t + 1000) * 0x1_0000,
            None => units * 1_000_000_000 >= 30_000_000_000 * 0x1_0000,
        },
{
    assert(now_compact.wrapping_sub(rb.last_sr).wrapping_sub(rb.delay_since_last_sr) == units);
}

/// Only blocks on our own stream that answer a report of ours tell a round trip,
/// each at most one, in the order of the blocks.
pub proof fn law_round_trips_of_answers(
    s: RtcpSession,
    blocks: Seq<ReportBlock>,
    now_ns: u64,
    now_compact: u32,
)
    ensures
        s.rtts_of(blocks, now_ns, now_compact).len() <= blocks.len(),
        (forall|i: int|
            0 <= i < blocks.len() ==> (#[trigger] blocks[i]).ssrc != s.local_ssrc
                || blocks[i].last_sr == 0) ==> s.rtts_of(blocks, now_ns, now_compact).len() == 0,
        blocks.len() == 1 && blocks[0].ssrc == s.local_ssrc && blocks[0].last_sr != 0
            ==> s.rtts_of(blocks, now_ns, now_compact) == match s.rtt_of(
            blocks[0],
            now_ns,
            now_compact,
        ) {
            Some(t) => seq![t],
            None => Seq::empty(),
        },
    decreases blocks.len(),
{
    if blocks.len() > 0 {
        let before = blocks.drop_last();
        law_round_trips_of_answers(s, before, now_ns, now_compact);
        assert(blocks.last() == blocks[blocks.len() - 1]);
        if forall|i: int|
            0 <= i < blocks.len() ==> (#[trigger] blocks[i]).ssrc != s.local_ssrc
                || blocks[i].last_sr == 0 {
            assert forall|i: int| 0 <= i < before.len() implies (#[trigger] before[i]).ssrc
                != s.local_ssrc || before[i].last_sr == 0 by {
                assert(before[i] == blocks[i]);
            }
        }
        if blocks.len() == 1 {
            reveal_with_fuel(RtcpSession::rtts_of, 2);
            assert(before.len() == 0);
            assert(Seq::<u64>::empty().push(0u64).len() == 1);
        }
    }
}

/// A sender's report is noted: the middle 32 bits of its time, which are its
/// time in 65536ths of a second, and the moment that it came.
pub proof fn law_report_noted(
    s: RtcpSession,
    ssrc: u32,
    ntp: NtpTimestamp,
    rtp_timestamp: u32,
    packet_count: u32,
    octet_count: u32,
    blocks: Seq<ReportBlock>,
    now_ns: u64,
)
    ensures
        ({
            let p = rtcp::RtcpModel::SenderReport {
                ssrc,
                ntp,
                rtp_timestamp,
                packet_count,
                octet_count,
                blocks,
            };
            let t = s.informed(p, now_ns);
            &&& t.last_sr_ntp_compact == (ntp.seconds * 0x1_0000_0000 + ntp.fraction) / 0x1_0000
                % 0x1_0000_0000
            &&& t.last_sr_received_at == Some(now_ns)
            &&& t.packets_received == s.packets_received
            &&& t.expected_packets == s.expected_packets
        }),
{
    let x = ntp.seconds * 0x1_0000_0000 + ntp.fraction;
    assert(x / 0x1_0000 == ntp.seconds * 0x1_0000 + ntp.fraction as int / 0x1_0000);
    let high = ntp.seconds as int / 0x1_0000;
    assert(ntp.seconds == high * 0x1_0000 + ntp.seconds as int % 0x1_0000);
}

/// A moment as a network time: seconds from 1900, which are 70 years of 365 days
/// and 17 leap days more than from 1970, and the rest of the second in parts of
/// which 2 to the power 32 make one.
pub proof fn law_network_time(secs: u64, nanos: u32)
    requires
        nanos < 1_000_000_000,
    ensures
        ({
            let t = NtpTimestamp::of_unix(secs, nanos);
            &&& (t.seconds - secs - (70 * 365 + 17) * 86400) % 0x1_0000_0000 == 0
            &&& t.fraction * 1_000_000_000 <= nanos * 0x1_0000_0000 < (t.fraction + 1)
                * 1_000_000_000
        }),
{
    let x = secs + 2_208_988_800;
    assert(x == x / 0x1_0000_0000 * 0x1_0000_0000 + x % 0x1_0000_0000);
}

/// The losses in a window are the entries that say so.
pub proof fn law_losses_counted(w: Seq<bool>, n: nat)
    requires
        n <= w.len(),
    ensures
        session::lost_count(w, n) == w.take(n as int).filter(|came: bool| !came).len(),
    decreases n,
{
    let lost = |came: bool| !came;
    reveal(Seq::filter);
    if n > 0 {
        law_losses_counted(w, (n - 1) as nat);
        assert(w.take(n as int).drop_last() =~= w.take(n - 1));
        assert(w.take(n as int).last() == w[n - 1]);
    } else {
        assert(w.take(0).filter(lost) =~= Seq::<bool>::empty());
    }
}

/// The density of losses within bursts, in 256ths: none without a loss, all
/// where no packet came between two losses, and else the share of the losses in
/// losses and packets that came alone between two.
pub proof fn law_burst_density(w: Seq<bool>, len: nat)
    requires
        2 <= len <= w.len(),
    ensures
        ({
            let d = session::burst_density_of(w, len) as int;
            let lost = session::lost_count(w, len) as int;
            let alone = session::alone_count(w, len, len) as int;
            &&& (forall|i: int| 0 <= i < len ==> w[i]) ==> d == 0
            &&& (forall|i: int| 0 <= i < len ==> !w[i]) ==> d == 255
            &&& lost == 0 ==> d == 0
            &&& lost > 0 && alone == 0 ==> d == 255
            &&& lost > 0 && alone > 0 ==> d * (lost + alone) <= 256 * lost < (d + 1) * (lost
                + alone)
        }),
{
    let lost = session::lost_count(w, len) as int;
    let alone = session::alone_count(w, len, len) as int;
    lemma_none_lost(w, len);
    lemma_all_lost(w, len, len);
    if lost > 0 {
        let all = lost + alone;
        let d = lost * 256 / all;
        vstd::arithmetic::div_mod::lemma_fundamental_div_mod(lost * 256, all);
        if alone == 0 {
            assert(d == 256) by (nonlinear_arith)
                requires
                    lost > 0,
                    all == lost,
                    lost * 256 == all * d + (lost * 256) % all,
                    0 <= (lost * 256) % all < all,
            ;
        } else {
            assert(0 <= d <= 255 && d * all <= 256 * lost < (d + 1) * all) by (nonlinear_arith)
                requires
                    0 < lost < all,
                    lost * 256 == all * d + (lost * 256) % all,
                    0 <= (lost * 256) % all < all,
            ;
        }
    }
}

proof fn lemma_none_lost(w: Seq<bool>, n: nat)
    ensures
        (forall|i: int| 0 <= i < n ==> w[i]) ==> session::lost_count(w, n) == 0,
        n > 0 && (forall|i: int| 0 <= i < n ==> !w[i]) ==> session::lost_count(w, n) > 0,
    decreases n,
{
    if n > 0 {
        lemma_none_lost(w, (n - 1) as nat);
    }
}

proof fn lemma_all_lost(w: Seq<bool>, len: nat, n: nat)
    requires
        n <= len,
    ensures
        (forall|i: int| 0 <= i < len ==> !w[i]) ==> session::alone_count(w, len, n) == 0,
    decreases n,
{
    if n > 0 {
        lemma_all_lost(w, len, (n - 1) as nat);
    }
}

/// The packets that came alone between two losses are counted, each once.
pub proof fn law_alone_counted(w: Seq<bool>, len: nat, n: nat)
    requires
        n < len <= w.len(),
    ensures
        session::alone_count(w, len, n + 1) == session::alone_count(w, len, n) + if 0 < n && n + 1
            < len && w[n as int] && !w[n - 1] && !w[n as int + 1] {
            1int
        } else {
            0int
        },
        session::alone_count(w, len, 0) == 0,
{
}

/// After a report, the counts of the next one start from here; only a sender's
/// report starts the clock for a round trip.
pub proof fn law_report_starts_interval(s: RtcpSession, interval_ns: u64, now_ns: u64)
    ensures
        ({
            let t = s.reported(interval_ns, now_ns);
            &&& t.expected_interval() == 0 && t.received_interval() == 0
            &&& t.fraction_lost() == 0
            &&& t.cumulative_lost() == s.cumulative_lost()
            &&& t.last_sr_sent_at == if s.packets_sent > 0 {
                Some(now_ns)
            } else {
                s.last_sr_sent_at
            }
            &&& t.last_rtcp_sent == now_ns && t.rtcp_interval_ns == interval_ns
        }),
{
}

/// The voice metrics carry the scores that were handed over and the delays of
/// the jitter buffer; what is not measured is marked as such.
pub proof fn law_voice_metrics(s: RtcpSession, q: QualityScores)
    ensures
        ({
            let m = s.voice_metrics(q);
            &&& m.loss_rate == q.loss_rate && m.round_trip_delay == q.round_trip_ms
            &&& m.r_factor == q.r_factor && m.mos_lq == q.mos && m.mos_cq == q.mos
            &&& m.jb_nominal == s.jb_nominal_ms && m.end_system_delay == s.jb_nominal_ms
            &&& m.jb_maximum == s.jb_maximum_ms
            &&& s.jb_maximum_ms > 0 ==> m.jb_abs_max == s.jb_maximum_ms
            &&& s.jb_maximum_ms == 0 ==> m.jb_abs_max == 1000
            &&& m.signal_level == 127 && m.noise_level == 127 && m.rerl == 127 && m.ext_r_factor
                == 127
            &&& m.gmin == 16
        }),
{
}

/// The round trips of packets are those of their reports' blocks, packet by
/// packet.
pub proof fn law_round_trips_in_a_row(
    s: RtcpSession,
    ps: Seq<rtcp::RtcpModel>,
    p: rtcp::RtcpModel,
    now_ns: u64,
    now_compact: u32,
)
    ensures
        s.rtts_in(Seq::empty(), now_ns, now_compact).len() == 0,
        p matches rtcp::RtcpModel::SenderReport { blocks, .. } ==> s.rtts_in(
            ps.push(p),
            now_ns,
            now_compact,
        ) == s.rtts_in(ps, now_ns, now_compact) + s.rtts_of(blocks, now_ns, now_compact),
        p matches rtcp::RtcpModel::ReceiverReport { blocks, .. } ==> s.rtts_in(
            ps.push(p),
            now_ns,
            now_compact,
        ) == s.rtts_in(ps, now_ns, now_compact) + s.rtts_of(blocks, now_ns, now_compact),
        !(p is SenderReport) && !(p is ReceiverReport) ==> s.rtts_in(ps.push(p), now_ns, now_compact)
            == s.rtts_in(ps, now_ns, now_compact),
{
    assert(ps.push(p).drop_last() =~= ps);
    let before = s.rtts_in(ps, now_ns, now_compact);
    assert(before + Seq::<u64>::empty() =~= before);
    assert(s.rtts_of(Seq::empty(), now_ns, now_compact) =~= Seq::empty());
}

/// Only a report under our own identifier collides with us.
pub proof fn law_collisions(s: RtcpSession, p: rtcp::RtcpModel)
    ensures
        p matches rtcp::RtcpModel::SenderReport { ssrc, .. } ==> (s.collides(p) <==> ssrc
            == s.local_ssrc),
        p matches rtcp::RtcpModel::ReceiverReport { ssrc, .. } ==> (s.collides(p) <==> ssrc
            == s.local_ssrc),
        !(p is SenderReport) && !(p is ReceiverReport) ==> !s.collides(p),
{
}

/// An extended report of 44 bytes follows the report if a source is heard and 48
/// bytes are left behind the report; else nothing does.
pub proof fn law_room_for_metrics(
    s: RtcpSession,
    jitter: u32,
    q: QualityScores,
    now_ns: u64,
    ntp: NtpTimestamp,
    room: nat,
)
    ensures
        ({
            let report = s.report_bytes(jitter, now_ns, ntp);
            let all = s.compound_bytes(jitter, q, now_ns, ntp, room);
            &&& all.take(report.len() as int) == report
            &&& s.remote_ssrc is Some && report.len() + 48 <= room ==> all.len() == report.len() + 44
            &&& s.remote_ssrc is None || report.len() + 48 > room ==> all == report
        }),
{
    let report = s.report_bytes(jitter, now_ns, ntp);
    let all = s.compound_bytes(jitter, q, now_ns, ntp, room);
    lemma_report_len(s, jitter, now_ns, ntp);
    assert(all.take(report.len() as int) =~= report);
    if s.has_xr(room) {
        layout::law_extended_report_layout(s.local_ssrc, s.remote_ssrc->Some_0, s.voice_metrics(q));
    } else {
        assert(all =~= report);
    }
}

proof fn lemma_description_len(ssrc: u32, name: Seq<u8>)
    ensures
        rtcp::sdes_bytes(ssrc, name).len() == 8 + rtcp::round_up(rtcp::item_bytes(name).len() + 3),
{
}

proof fn lemma_reports_len(
    ssrc: u32,
    ntp: NtpTimestamp,
    rtp_timestamp: u32,
    packet_count: u32,
    octet_count: u32,
    blocks: Seq<ReportBlock>,
)
    requires
        blocks.len() <= 1,
    ensures
        rtcp::sender_report_bytes(
            ssrc,
            ntp,
            rtp_timestamp,
            packet_count,
            octet_count,
            blocks,
        ).len() == 28 + 24 * blocks.len(),
        rtcp::receiver_report_bytes(ssrc, blocks).len() == 8 + 24 * blocks.len(),
{
    assert(rtcp::first_31(blocks) =~= blocks);
    rtcp::lemma_blocks_bytes(blocks);
}

proof fn lemma_report_len(s: RtcpSession, jitter: u32, now_ns: u64, ntp: NtpTimestamp)
    ensures
        s.report_bytes(jitter, now_ns, ntp).len() == s.report_len(),
{
    let blocks = s.report_blocks(jitter, now_ns);
    lemma_reports_len(
        s.local_ssrc,
        ntp,
        s.last_rtp_timestamp,
        s.packets_sent,
        s.octets_sent,
        blocks,
    );
    lemma_description_len(s.local_ssrc, rtcp::utf8_of(s.cname@));
}

} // verus!
