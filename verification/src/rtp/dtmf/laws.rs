//! What digits look like on the wire, and what is told of them.

use crate::rtp::dtmf;
use crate::rtp::dtmf::{
    DetectedDtmf, DetectorModel, DtmfEvent, DtmfPacketModel, DtmfPayload, DtmfSender, RtpBugFlags,
};
use crate::text;
use crate::wire;
use vstd::prelude::*;

verus! {

/// The key that an event code stands for: the digits in their order, then star
/// and pound, then the letters A to D.
pub open spec fn key_of(code: int, c: char) -> bool {
    if code < 10 {
        c as int == '0' as int + code
    } else if code == 10 {
        c == '*'
    } else if code == 11 {
        c == '#'
    } else {
        c as int == 'A' as int + code - 12
    }
}

/// Every event has a code from 0 to 15 of its own, and the key that goes with
/// the code.
pub proof fn law_keys(e: DtmfEvent, f: DtmfEvent)
    ensures
        e.number() <= 15,
        key_of(e.number() as int, e.character()),
        e.number() == f.number() ==> e == f,
        e.character() == f.character() ==> e == f,
{
}

/// Where the parts of a payload stand: the code, then the flag of the end and
/// six bits of volume, then sixteen of duration.
pub proof fn law_payload_layout(p: DtmfPayload)
    ensures
        p.bytes().len() == 4,
        p.bytes()[0] == p.event,
        (p.bytes()[1] >= 128) == p.is_end,
        p.bytes()[1] % 128 == p.volume % 64,
        wire::number(p.bytes().subrange(2, 4)) == p.duration,
{
    wire::law_bytes_stand_for_number(p.duration, 0, 0);
    assert(p.bytes().subrange(2, 4) =~= wire::be16(p.duration));
}

/// What is read of a payload: the code, which is at most 15, the flag of the
/// end, the volume and the duration. Four zeros before another whole payload are
/// passed over.
pub proof fn law_payload_read(d: Seq<u8>)
    ensures
        ({
            let o = if d.len() >= 8 && d.subrange(0, 4) == seq![0u8, 0u8, 0u8, 0u8] && d[4] <= 15 {
                4int
            } else {
                0int
            };
            match DtmfPayload::parsed(d) {
                Some(p) => {
                    &&& d.len() >= 4
                    &&& p.event == d[o] && p.event <= 15
                    &&& p.is_end == (d[o + 1] >= 128)
                    &&& p.volume == d[o + 1] % 64
                    &&& p.duration == wire::number(d.subrange(o + 2, o + 4))
                },
                None => d.len() < 4 || d[o] > 15,
            }
        }),
{
    if d.len() >= 4 {
        let zeros = d.subrange(0, 4);
        if d[0] == 0 && d[1] == 0 && d[2] == 0 && d[3] == 0 {
            assert(zeros =~= seq![0u8, 0u8, 0u8, 0u8]);
        }
        if zeros == seq![0u8, 0u8, 0u8, 0u8] {
            assert(zeros[0] == d[0] && zeros[1] == d[1] && zeros[2] == d[2] && zeros[3] == d[3]);
        }
        wire::law_read_number(d, 2);
        if d.len() >= 8 {
            wire::law_read_number(d, 6);
        }
    }
}

/// Where the parts of a packet stand.
pub proof fn law_packet_layout(p: DtmfPacketModel)
    requires
        p.payload.len() == 4,
    ensures
        ({
            let b = p.wire_bytes();
            &&& b.len() == 16
            &&& b[0] == 0x80
            &&& b[1] % 128 == p.payload_type % 128
            &&& (b[1] >= 128) == p.marker
            &&& wire::number(b.subrange(2, 4)) == p.sequence
            &&& wire::number(b.subrange(4, 8)) == p.timestamp
            &&& wire::number(b.subrange(8, 12)) == p.ssrc
            &&& b.subrange(12, 16) == p.payload
        }),
{
    let b = p.wire_bytes();
    wire::law_bytes_stand_for_number(p.sequence, p.timestamp, 0);
    wire::law_bytes_stand_for_number(0, p.ssrc, 0);
    assert(b.subrange(2, 4) =~= wire::be16(p.sequence));
    assert(b.subrange(4, 8) =~= wire::be32(p.timestamp));
    assert(b.subrange(8, 12) =~= wire::be32(p.ssrc));
    assert(b.subrange(12, 16) =~= p.payload);
}

/// Every digit that is returned or queued has the key of its event; one that is
/// returned is of the event whose code the packet carries, and has come to its
/// end. At most two digits are queued for one packet: the one before, whose end
/// was lost, and this one.
pub proof fn law_detected_keys(
    m: DetectorModel,
    pt: u8,
    seq: u16,
    ts: u32,
    payload: Seq<u8>,
    now_ns: u64,
)
    ensures
        ({
            let (d, r) = m.processed(pt, seq, ts, payload, now_ns);
            let o = if payload.len() >= 8 && payload.subrange(0, 4) == seq![0u8, 0u8, 0u8, 0u8]
                && payload[4] <= 15 {
                4int
            } else {
                0int
            };
            &&& r matches Some(x) ==> x.event.number() == payload[o] && key_of(
                payload[o] as int,
                x.digit,
            ) && x.is_end && payload[o + 1] >= 128
            &&& m.queue.len() <= d.queue.len() <= m.queue.len() + 2
            &&& forall|i: int|
                m.queue.len() <= i < d.queue.len() ==> key_of(
                    (#[trigger] d.queue[i]).event.number() as int,
                    d.queue[i].digit,
                ) && d.queue[i].duration_ms >= 50
            &&& forall|i: int|
                m.queue.len() <= i < d.queue.len() && r is None ==> !(#[trigger] d.queue[i]).is_end
        }),
{
    law_payload_read(payload);
    let (d, r) = m.processed(pt, seq, ts, payload, now_ns);
    if payload.len() >= 4 {
        let parsed = DtmfPayload::parsed(payload);
        if parsed is Some {
            let p = parsed->0;
            let event = DtmfEvent::numbered(p.event)->0;
            dtmf::law_event_codes(event, p.event);
            law_keys(event, event);
            let a = m.latched(pt);
            let s = a.seen(seq, ts);
            if s.current_digit is Some {
                law_keys(s.current_digit->0, event);
            }
            let b = s.settled(event, ts, now_ns);
            lemma_settled(s, event, ts, now_ns);
            if b.current_digit is Some {
                law_keys(b.current_digit->0, event);
            }
        }
    }
}

proof fn lemma_settled(s: DetectorModel, event: DtmfEvent, ts: u32, now_ns: u64)
    ensures
        ({
            let b = s.settled(event, ts, now_ns);
            &&& s.queue.len() <= b.queue.len() <= s.queue.len() + 1
            &&& forall|i: int|
                s.queue.len() <= i < b.queue.len() ==> key_of(
                    (#[trigger] b.queue[i]).event.number() as int,
                    b.queue[i].digit,
                ) && !b.queue[i].is_end && b.queue[i].duration_ms >= 50
        }),
{
    if s.current_digit is Some {
        law_keys(s.current_digit->0, event);
    }
}

/// A packet that a detector attends to: of its payload type, of a digit that is
/// no echo of the one before, and not stale.
pub open spec fn attended(m: DetectorModel, pt: u8, seq: u16, ts: u32) -> bool {
    &&& m.valid()
    &&& m.expected_pt == pt && pt != 0
    &&& m.last_end_timestamp == 0 || (ts - m.last_end_timestamp) % 0x1_0000_0000 >= 640
    &&& ts != m.in_digit_ts
}

/// A digit whose end is lost is told when a packet of another digit comes: with
/// its own event, as not ended, and with the duration that was heard of it.
pub proof fn law_lost_end_is_told(
    m: DetectorModel,
    e: DtmfEvent,
    pt: u8,
    seq: u16,
    ts: u32,
    p: DtmfPayload,
    now_ns: u64,
)
    requires
        attended(m, pt, seq, ts),
        m.current_digit == Some(e),
        ts != m.last_in_digit_ts,
        p.event <= 15,
        p.volume < 64,
    ensures
        ({
            let d = m.processed(pt, seq, ts, p.bytes(), now_ns).0;
            let heard = (m.last_duration + m.duration_flip) / 8;
            let told = d.queue[m.queue.len() as int];
            &&& d.queue.len() > m.queue.len()
            &&& told.event == e
            &&& !told.is_end
            &&& told.duration_ms == if heard < 50 {
                50
            } else {
                heard
            }
        }),
{
    dtmf::law_payload_round_trip(p);
    dtmf::law_event_codes(e, p.event);
    let s = m.seen(seq, ts);
    assert(!m.too_close(ts, p.is_end));
}

/// A new digit that begins and ends with one packet is told at once, with the
/// duration that the packet carries: at least fifty milliseconds, eight units
/// to each.
pub proof fn law_end_is_told(
    m: DetectorModel,
    pt: u8,
    seq: u16,
    ts: u32,
    p: DtmfPayload,
    now_ns: u64,
)
    requires
        attended(m, pt, seq, ts),
        m.current_digit is None,
        ts != m.last_in_digit_ts,
        p.event <= 15,
        p.volume < 64,
        p.is_end,
        p.duration > 0,
    ensures
        ({
            let (d, r) = m.processed(pt, seq, ts, p.bytes(), now_ns);
            let ms = p.duration as int / 8;
            &&& r is Some
            &&& r->0.event.number() == p.event
            &&& r->0.duration_ms == if ms < 50 {
                50
            } else {
                ms
            }
            &&& d.queue == m.queue.push(r->0)
            &&& d.current_digit is None
            &&& d.last_end_timestamp == ts
        }),
{
    dtmf::law_payload_round_trip(p);
    let event = DtmfEvent::numbered(p.event)->0;
    dtmf::law_event_codes(event, p.event);
    assert(!m.too_close(ts, p.is_end));
    let s = m.seen(seq, ts);
    let b = s.begun(event, ts, now_ns);
    assert(s.settled(event, ts, now_ns) == b);
    assert(b.total(p.duration) == p.duration);
    let (d, r) = m.processed(pt, seq, ts, p.bytes(), now_ns);
    assert(d.queue =~= m.queue.push(r->0));
}

/// Within eighty milliseconds behind a digit, nothing begins: packets there
/// change nothing, nor do packets of the digit itself but for its end.
pub proof fn law_gap_between_digits(
    m: DetectorModel,
    pt: u8,
    seq: u16,
    ts: u32,
    p: DtmfPayload,
    now_ns: u64,
)
    requires
        m.expected_pt == pt && pt != 0,
        m.last_end_timestamp != 0,
        p.event <= 15,
        p.volume < 64,
        if ts == m.last_end_timestamp {
            !p.is_end
        } else {
            (ts - m.last_end_timestamp) % 0x1_0000_0000 < 640
        },
    ensures
        m.processed(pt, seq, ts, p.bytes(), now_ns) == (m, None::<DetectedDtmf>),
{
    dtmf::law_payload_round_trip(p);
}

/// A digit that has gone on for longer than the timeout, by the clock, is told
/// without its end when another packet of it comes.
pub proof fn law_timeout_by_clock(
    m: DetectorModel,
    e: DtmfEvent,
    pt: u8,
    seq: u16,
    ts: u32,
    p: DtmfPayload,
    started: u64,
    now_ns: u64,
)
    requires
        m.valid(),
        m.expected_pt == pt && pt != 0,
        m.last_end_timestamp == 0 || (ts - m.last_end_timestamp) % 0x1_0000_0000 >= 640,
        m.current_digit == Some(e),
        m.digit_start_time == Some(started),
        ts == m.in_digit_ts && ts == m.last_in_digit_ts,
        m.prev_seq != 0,
        0 < (seq - m.prev_seq) % 0x1_0000 <= 0x8000,
        m.in_digit_sanity <= 1500,
        p.event <= 15,
        p.volume < 64,
        started <= now_ns,
        (m.end_timeout_ms + 1) * 1_000_000 <= now_ns - started < 0x1_0000_0000 * 1_000_000,
    ensures
        ({
            let d = m.processed(pt, seq, ts, p.bytes(), now_ns).0;
            &&& d.queue.len() == m.queue.len() + 1
            &&& d.queue.last().event == e && !d.queue.last().is_end
        }),
{
    dtmf::law_payload_round_trip(p);
    dtmf::law_event_codes(e, p.event);
    assert(!m.too_close(ts, p.is_end));
    assert(!m.reordered(seq, ts));
    let s = m.seen(seq, ts);
    assert((now_ns - started) / 1_000_000 > m.end_timeout_ms);
    assert((now_ns - started) / 1_000_000 < 0x1_0000_0000);
    assert(s.overdue(ts, now_ns));
    assert(s.settled(DtmfEvent::numbered(p.event)->0, ts, now_ns) == s.forced());
}

/// Durations of sixteen bits that wrap are added up: where one falls to less
/// than half of one in the upper half of the range, 65535 went before it.
pub proof fn law_durations_added_up(m: DetectorModel, duration: u16)
    ensures
        m.last_duration < 0x8000 ==> m.total(duration) == duration + m.duration_flip,
        m.last_duration >= 0x8000 && 2 * duration >= m.last_duration ==> m.total(duration)
            == duration + m.duration_flip,
        m.last_duration >= 0x8000 && 2 * duration + 2 <= m.last_duration ==> m.total(duration)
            == duration + m.duration_flip + 65535,
        m.duration_flip + 65535 <= u32::MAX ==> m.measured(duration).last_duration
            + m.measured(duration).duration_flip == m.total(duration),
{
}

/// A digit of over thirty seconds is forgotten, and nothing is told of it.
pub proof fn law_endless_digit_forgotten(m: DetectorModel, d: DtmfPayload, ts: u32)
    requires
        m.total(d.duration) > 30 * 8000,
    ensures
        m.counted(d, ts).1 is None,
        m.counted(d, ts).0.current_digit is None,
        m.counted(d, ts).0.queue == m.queue,
{
}

/// A detector for a payload type attends to that type alone; one for none to the
/// dynamic types from 96 to 127, and of these to the first that comes.
pub proof fn law_types_attended(m: DetectorModel, pt: u8, first: u8)
    ensures
        m.expected_pt != 0 ==> (m.accepts(pt) <==> pt == m.expected_pt),
        m.expected_pt == 0 && m.latched_pt == 0 ==> (m.accepts(pt) <==> 96 <= pt <= 127),
        m.expected_pt == 0 && m.latched_pt == 0 && m.accepts(first) ==> (m.latched(
            first,
        ).accepts(pt) <==> pt == first),
{
}

/// The duration that a packet carries.
pub open spec fn duration_in(p: DtmfPacketModel) -> int {
    wire::number(p.payload.subrange(2, 4))
}

spec fn least(a: int, b: int) -> int {
    if a < b {
        a
    } else {
        b
    }
}

/// How a digit goes on: after `m` intervals, `j` of them have counted.
spec fn gone_on(a: DtmfSender, interval_ms: u32, m: nat, seq: u16, j: int) -> bool {
    let step = interval_ms * 8;
    let s = a.after(m, interval_ms);
    let ps = a.packets_after(m, interval_ms, seq);
    &&& 1 <= j <= m + 1
    &&& s == (DtmfSender { out_digit_sofar: s.out_digit_sofar, ..a })
    &&& s.out_digit_sofar == j * step
    &&& j == m + 1 || s.out_digit_sofar >= a.out_digit_dur
    &&& j == 1 || (j - 1) * step < a.out_digit_dur
    &&& ps.len() == if j >= 2 && s.out_digit_sofar >= a.out_digit_dur {
        j - 2
    } else {
        j - 1
    }
    &&& forall|i: int|
        0 <= i < ps.len() ==> duration_in(#[trigger] ps[i]) == least((i + 2) * step, 0xFFFF)
}

proof fn lemma_gone_on(a: DtmfSender, interval_ms: u32, m: nat, seq: u16) -> (j: int)
    requires
        0 < interval_ms <= 8191,
        a.out_digit is Some,
        !a.rtp_bugs.sonus_dtmf_timestamp,
        a.out_digit_sofar == interval_ms * 8,
        a.out_digit_dur - 1 + interval_ms * 8 <= u32::MAX,
    ensures
        gone_on(a, interval_ms, m, seq, j),
    decreases m,
{
    let step = interval_ms * 8;
    if m == 0 {
        assert(1 * step == step);
        1
    } else {
        let before = (m - 1) as nat;
        let j = lemma_gone_on(a, interval_ms, before, seq);
        let s = a.after(before, interval_ms);
        let ps = a.packets_after(before, interval_ms, seq);
        let q = a.seq_after(before, interval_ms, seq);
        assert((j + 1) * step == j * step + step) by (nonlinear_arith);
        assert(dtmf::duration_cap(step) == step);
        if s.in_progress() {
            let next = s.next_duration(interval_ms);
            assert(next == (j + 1) * step);
            assert(s.continue_packet(interval_ms, q) is Some <==> next < a.out_digit_dur);
            if next < a.out_digit_dur {
                let p = s.continue_packet(interval_ms, q)->0;
                let payload = DtmfPayload::of(
                    a.out_digit->0,
                    false,
                    dtmf::duration_cap(next),
                );
                law_payload_layout(payload);
                assert(duration_in(p) == least(next, 0xFFFF));
                let all = a.packets_after(m, interval_ms, seq);
                assert(all == ps.push(p));
                assert(ps.len() == j - 1);
                assert forall|i: int| 0 <= i < all.len() implies duration_in(#[trigger] all[i])
                    == least((i + 2) * step, 0xFFFF) by {
                    if i < ps.len() {
                        assert(all[i] == ps[i]);
                    }
                }
            }
            j + 1
        } else {
            j
        }
    }
}

/// The durations that the packets of a digit carry go up by one interval from
/// packet to packet, as far as sixteen bits reach. The last three carry the
/// digit's own duration, rounded up to whole intervals.
pub proof fn law_digit_durations(
    s: DtmfSender,
    e: DtmfEvent,
    duration_ms: u32,
    interval_ms: u32,
    seq: u16,
    ts: u32,
)
    requires
        s.out_digit is None,
        !s.rtp_bugs.sonus_dtmf_timestamp,
        0 < interval_ms <= 8191,
        duration_ms > 0,
        duration_ms * 8 - 1 + interval_ms * 8 <= u32::MAX,
    ensures
        ({
            let ps = dtmf::digit_packets(s, e, duration_ms, interval_ms, seq, ts);
            let n = ps.len() as int;
            &&& n >= 4
            &&& forall|i: int|
                0 <= i < n - 3 ==> duration_in(#[trigger] ps[i]) == if (i + 1) * (interval_ms * 8)
                    < 0xFFFF {
                    (i + 1) * (interval_ms * 8)
                } else {
                    0xFFFF
                }
            &&& exists|k: int|
                {
                    &&& duration_ms <= #[trigger] (k * interval_ms) < duration_ms + interval_ms
                    &&& k >= 1
                    &&& duration_in(ps[n - 1]) == if k * interval_ms * 8 < 0xFFFF {
                        k * interval_ms * 8
                    } else {
                        0xFFFF
                    }
                    &&& n == if k >= 2 {
                        k + 2
                    } else {
                        4
                    }
                }
        }),
{
    let step = interval_ms * 8;
    let a = s.started(e, duration_ms, ts, interval_ms);
    let q = s.end_seq(seq).wrapping_add(1);
    let m = DtmfSender::intervals(duration_ms, interval_ms);
    let j = lemma_gone_on(a, interval_ms, m, q);
    let ps = dtmf::digit_packets(s, e, duration_ms, interval_ms, seq, ts);
    let first = s.start_packets(e, ts, interval_ms, seq);
    let mid = a.packets_after(m, interval_ms, q);
    let z = a.after(m, interval_ms);
    let end = z.end_packets(a.seq_after(m, interval_ms, q));
    let n = ps.len() as int;
    assert(first.len() == 1 && end.len() == 3);
    let w = (duration_ms + interval_ms - 1) / (interval_ms as int);
    vstd::arithmetic::div_mod::lemma_fundamental_div_mod(
        duration_ms + interval_ms - 1,
        interval_ms as int,
    );
    let r = (duration_ms + interval_ms - 1) % (interval_ms as int);
    assert(w >= 1 && w * interval_ms >= duration_ms) by (nonlinear_arith)
        requires
            duration_ms + interval_ms - 1 == interval_ms * w + r,
            0 <= r < interval_ms,
            duration_ms > 0,
            interval_ms > 0,
    ;
    assert(m == w);
    assert((m + 1) * step == (w * interval_ms) * 8 + step) by (nonlinear_arith)
        requires
            m == w,
            step == interval_ms * 8,
    ;
    assert(z.out_digit_sofar >= a.out_digit_dur);
    assert(j * step == (j * interval_ms) * 8 && (j - 1) * step == (j * interval_ms) * 8 - step)
        by (nonlinear_arith)
        requires
            step == interval_ms * 8,
    ;
    if j == 1 {
        assert(1 * interval_ms == interval_ms);
    }
    let p0 = DtmfPayload::of(e, false, DtmfSender::first_duration(interval_ms));
    law_payload_layout(p0);
    assert(ps[0] == first[0]);
    assert(duration_in(ps[0]) == step);
    assert forall|i: int| 0 <= i < n - 3 implies duration_in(#[trigger] ps[i]) == least(
        (i + 1) * step,
        0xFFFF,
    ) by {
        if i > 0 {
            assert(ps[i] == mid[i - 1]);
        } else {
            assert(1 * step == step);
        }
    }
    let pe = DtmfPayload::of(e, true, dtmf::duration_cap(z.out_digit_sofar as int));
    law_payload_layout(pe);
    assert(ps[n - 1] == end[2]);
    assert(duration_in(ps[n - 1]) == least(j * step, 0xFFFF));
    assert(duration_ms <= j * interval_ms < duration_ms + interval_ms);
}

/// A digit that starts while another is in progress ends that one first: three
/// packets with its event and its end go out before the new one's first, which
/// alone has the marker.
pub proof fn law_new_digit_ends_old(
    s: DtmfSender,
    old_event: DtmfEvent,
    e: DtmfEvent,
    ts: u32,
    interval_ms: u32,
    seq: u16,
)
    requires
        s.out_digit == Some(old_event),
    ensures
        ({
            let ps = s.start_packets(e, ts, interval_ms, seq);
            &&& ps.len() == 4
            &&& forall|i: int|
                0 <= i < 3 ==> (#[trigger] ps[i]).payload[0] == old_event.number()
                    && ps[i].payload[1] >= 128 && !ps[i].marker
            &&& ps[3].payload[0] == e.number() && ps[3].payload[1] < 128
            &&& ps[3].timestamp == ts
            &&& ps[3].marker == (!s.rtp_bugs.never_send_marker && !s.rtp_bugs.sonus_dtmf_timestamp)
        }),
{
    let p = DtmfPayload::of(old_event, true, dtmf::duration_cap(s.out_digit_sofar as int));
    law_payload_layout(p);
    law_payload_layout(DtmfPayload::of(e, false, DtmfSender::first_duration(interval_ms)));
}

/// To a device that wants it so, timestamps go up by 160 and sequence numbers by
/// one with each of the packets that end a digit.
pub proof fn law_quirk_counts_up(s: DtmfSender, e: DtmfEvent, seq: u16)
    requires
        s.out_digit == Some(e),
        s.rtp_bugs.sonus_dtmf_timestamp,
    ensures
        ({
            let ps = s.end_packets(seq);
            &&& ps.len() == 3
            &&& forall|i: int|
                0 <= i < 3 ==> (#[trigger] ps[i]).timestamp == (s.digit_timestamp + 160 * i)
                    % 0x1_0000_0000 && ps[i].sequence == (seq + i) % 0x1_0000 && !ps[i].marker
            &&& s.end_seq(seq) == (seq + 3) % 0x1_0000
        }),
{
}

/// A character that is sent is the one that is detected: the packets of the
/// event that a key names carry the code by which a detector tells that key.
pub proof fn law_sent_key_is_told(
    s: DtmfSender,
    m: DetectorModel,
    e: DtmfEvent,
    duration_ms: u32,
    interval_ms: u32,
    seq: u16,
    ts: u32,
    at: Seq<u64>,
)
    requires
        s.out_digit is None,
        !s.rtp_bugs.sonus_dtmf_timestamp,
        interval_ms > 0,
        DtmfSender::digit_units(duration_ms) - 1 + dtmf::duration_cap(interval_ms * 8) <= u32::MAX,
        m.valid(),
        dtmf::ready_for(m, s.payload_type, ts),
        DtmfSender::intervals(duration_ms, interval_ms) + 3 <= dtmf::DTMF_SANITY_LIMIT,
        at.len() == DtmfSender::intervals(duration_ms, interval_ms) + 4,
        forall|i: int| 0 <= i < at.len() ==> at[0] <= #[trigger] at[i],
        forall|i: int|
            0 <= i < at.len() ==> (#[trigger] at[i] - at[0]) / 1_000_000 <= m.end_timeout_ms,
    ensures
        ({
            let ps = dtmf::digit_packets(s, e, duration_ms, interval_ms, seq, ts);
            let q = dtmf::delivered(m, ps, at).queue;
            &&& q.len() == m.queue.len() + 1
            &&& q.last().event == e
            &&& key_of(e.number() as int, q.last().digit)
            &&& q.last().is_end
        }),
{
    dtmf::law_sent_digit_detected(s, m, e, duration_ms, interval_ms, seq, ts, at);
    law_keys(e, e);
}

/// Of a digit of up to thirty seconds the end is told, unless it lasted no time
/// at all; nothing else in it is.
pub proof fn law_end_of_digit_told(m: DetectorModel, d: DtmfPayload, ts: u32)
    requires
        m.total(d.duration) <= 30 * 8000,
    ensures
        ({
            let (after, told) = m.counted(d, ts);
            let ends = d.is_end && m.current_digit is Some;
            &&& told is Some <==> ends && m.total(d.duration) > 0
            &&& ends ==> after.current_digit is None
            &&& !ends ==> after.current_digit == m.current_digit
            &&& told is None ==> after.queue == m.queue
            &&& told is Some ==> after.queue == m.queue.push(told->Some_0)
            &&& told is Some ==> after.last_end_timestamp == ts
        }),
{
}

/// A sender that stops has no digit, and where it had none it stays as it is.
/// The next digit begins behind this one.
pub proof fn law_stopped(s: DtmfSender)
    ensures
        s.ended().out_digit is None,
        s.out_digit is None ==> s.ended() == s && s.end_packets(0).len() == 0,
        s.out_digit is Some ==> s.end_packets(0).len() == 3,
        s.out_digit is Some && !s.rtp_bugs.sonus_dtmf_timestamp ==> s.ended().digit_timestamp
            == s.digit_timestamp.wrapping_add(s.out_digit_dur),
{
}

/// The first packet of a digit carries one interval, and without an interval a
/// millisecond.
pub proof fn law_first_duration(interval_ms: u32)
    ensures
        interval_ms == 0 ==> DtmfSender::first_duration(interval_ms) == 8,
        0 < interval_ms <= 8191 ==> DtmfSender::first_duration(interval_ms) == 8 * interval_ms,
        interval_ms > 8191 ==> DtmfSender::first_duration(interval_ms) == 0xFFFF,
{
}

/// A digit is given as many intervals as it takes, and at least one.
pub proof fn law_intervals(duration_ms: u32, interval_ms: u32)
    requires
        interval_ms > 0,
    ensures
        ({
            let n = DtmfSender::intervals(duration_ms, interval_ms);
            &&& n >= 1
            &&& n * interval_ms >= duration_ms
            &&& n == 1 || (n - 1) * interval_ms < duration_ms
        }),
{
    let d = interval_ms as int;
    let x = duration_ms + d - 1;
    let q = x / d;
    vstd::arithmetic::div_mod::lemma_fundamental_div_mod(x, d);
    assert(d * q == q * d && (q - 1) * d == q * d - d) by (nonlinear_arith);
    let n = DtmfSender::intervals(duration_ms, interval_ms) as int;
    if q < 1 {
        assert(q * d <= 0) by (nonlinear_arith)
            requires
                q <= 0,
                d > 0,
        ;
        assert(n * interval_ms == d) by (nonlinear_arith)
            requires
                n == 1,
                d == interval_ms,
        ;
    } else {
        assert(n * interval_ms == q * d && (n - 1) * interval_ms == q * d - d) by (nonlinear_arith)
            requires
                n == q,
                d == interval_ms,
        ;
    }
}

/// A device of either make never wants a marker, and one of them keeps its own
/// timestamps; another device wants nothing.
pub proof fn law_workarounds(s: Seq<char>)
    ensures
        ({
            let bugs = RtpBugFlags::for_name(s);
            let sonus = exists|i: int| #[trigger] text::stands_at(s, "sonus"@, i);
            let cisco = exists|i: int| #[trigger] text::stands_at(s, "cisco"@, i);
            &&& bugs.sonus_dtmf_timestamp <==> sonus
            &&& sonus ==> bugs.never_send_marker
            &&& cisco ==> bugs.never_send_marker
            &&& !sonus && !cisco ==> !bugs.never_send_marker
        }),
{
}

} // verus!
