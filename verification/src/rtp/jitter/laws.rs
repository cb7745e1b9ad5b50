//! What the buffer does with packets and delays, told by what goes in and what
//! comes out.

use crate::rtp::jitter;
use crate::rtp::jitter::{JitterConfig, JitterModel, JitterStep, RedBlock};
use crate::rtp::packet::PacketModel;
use crate::wire;
use vstd::prelude::*;

verus! {

/// A packet with this sequence number is among some.
pub open spec fn among(s: Seq<PacketModel>, k: u16) -> bool {
    exists|i: int| 0 <= i < s.len() && (#[trigger] s[i]).header.sequence_number == k
}

/// A number that was played, or lies less than half the range before one that
/// was.
pub open spec fn past(m: JitterModel, k: u16) -> bool {
    m.last_played matches Some(l) && (l - k) % 0x1_0000 < 0x8000
}

pub(crate) proof fn lemma_among(s: Seq<PacketModel>, k: u16)
    requires
        jitter::ordered(s),
    ensures
        jitter::holds(s, k) <==> among(s, k),
{
    jitter::lemma_slot(s, k);
    if among(s, k) {
        let i = choose|i: int| 0 <= i < s.len() && (#[trigger] s[i]).header.sequence_number == k;
        assert(jitter::key(s[i]) == k);
    }
    if jitter::holds(s, k) {
        let i = jitter::slot(s, k);
        assert(s[i].header.sequence_number == k);
    }
}

/// Sequence numbers that wrap are in the order of their places in the stream, as
/// long as these are less than half the range apart.
pub proof fn law_order_of_places(a: int, b: int)
    requires
        a < b < a + 0x8000,
    ensures
        jitter::seq_before((a % 0x1_0000) as u16, (b % 0x1_0000) as u16),
        !jitter::seq_before((b % 0x1_0000) as u16, (a % 0x1_0000) as u16),
        !jitter::seq_before((a % 0x1_0000) as u16, (a % 0x1_0000) as u16),
{
    let x = (a % 0x1_0000) as u16;
    jitter::lemma_remainder(a, x, b);
}

/// The time that packets amount to: what their samples take at the sample rate,
/// in whole milliseconds.
pub proof fn law_buffered_time(config: JitterConfig, n: nat)
    requires
        config.sample_rate > 0,
        n * config.samples_per_packet * 1000 < config.sample_rate * 0x1_0000_0000,
    ensures
        ({
            let ms = config.duration_ms(n) as int;
            ms * config.sample_rate <= n * config.samples_per_packet * 1000 < (ms + 1)
                * config.sample_rate
        }),
{
    let total = n * config.samples_per_packet * 1000;
    let rate = config.sample_rate as int;
    vstd::arithmetic::div_mod::lemma_fundamental_div_mod(total, rate);
    let q = total / rate;
    assert(0 <= total) by (nonlinear_arith)
        requires
            total == n * config.samples_per_packet * 1000,
            n >= 0,
            config.samples_per_packet >= 0,
    ;
    assert(0 <= q < 0x1_0000_0000 && q * rate <= total < (q + 1) * rate) by (nonlinear_arith)
        requires
            rate > 0,
            0 <= total < rate * 0x1_0000_0000,
            total == rate * q + total % rate,
            0 <= total % rate < rate,
    ;
}

/// The delay that the jitter calls for, kept within the settings.
pub open spec fn calls_for(config: JitterConfig, jitter_target_ms: u32, wanted: int) -> bool {
    &&& config.min_delay_ms <= wanted <= config.max_delay_ms
    &&& wanted == jitter_target_ms || (wanted == config.min_delay_ms && jitter_target_ms < wanted)
        || (wanted == config.max_delay_ms && jitter_target_ms > wanted)
}

/// The time of one packet, at least a millisecond.
pub open spec fn packet_time(config: JitterConfig) -> int {
    let ms = config.samples_per_packet * 1000 / (config.sample_rate as int);
    if ms < 1 {
        1
    } else {
        ms
    }
}

/// The delay follows the jitter: where more than one packet's time more is held
/// than the jitter calls for, it goes down, by at most five milliseconds and not
/// below the least; where more than one packet's time less is held, it goes up,
/// by at most five and not above the most; else it stays.
pub proof fn law_delay_follows_jitter(m: JitterModel, jitter_target_ms: u32, wanted: int)
    requires
        m.config.is_valid(),
        m.config.min_delay_ms <= m.current_delay_ms <= m.config.max_delay_ms,
        calls_for(m.config, jitter_target_ms, wanted),
    ensures
        ({
            let held = m.config.duration_ms(m.packets.len()) as int;
            let before = m.current_delay_ms as int;
            let after = m.adapted(jitter_target_ms).current_delay_ms as int;
            let band = packet_time(m.config);
            &&& held > wanted + band ==> after <= before && (before > m.config.min_delay_ms
                ==> after < before)
            &&& held < wanted - band ==> after >= before && (before < m.config.max_delay_ms
                ==> after > before)
            &&& wanted - band <= held <= wanted + band ==> after == before
            &&& before - 5 <= after <= before + 5
            &&& after == before || after == before + 5 || after == before - 5 || after
                == m.config.min_delay_ms || after == m.config.max_delay_ms
            &&& m.config.min_delay_ms <= after <= m.config.max_delay_ms
            &&& m.adapted(jitter_target_ms).stats.buffer_delay_ms == after
            &&& m.adapted(jitter_target_ms).packets == m.packets
        }),
{
    let ms = m.config.samples_per_packet * 1000 / (m.config.sample_rate as int);
    assert(m.config.packet_ms() == ms);
}

/// A packet that is next and there is played, and the delay is looked at with
/// every 250th pop, by what is then left in the buffer.
pub proof fn law_delay_adapted_now_and_then(
    m: JitterModel,
    l: u16,
    jitter_target_ms: u32,
    wanted: int,
)
    requires
        m.wf(),
        m.initial_buffering_done,
        m.last_played == Some(l),
        among(m.packets, ((l + 1) % 0x1_0000) as u16),
        m.config.duration_ms(m.packets.len()) <= m.current_delay_ms * 2,
        m.pop_count < u32::MAX,
        m.drift_check + 1 < 500,
        m.config.min_delay_ms <= m.current_delay_ms <= m.config.max_delay_ms,
        calls_for(m.config, jitter_target_ms, wanted),
    ensures
        ({
            let (t, r) = m.popped(jitter_target_ms);
            let held = m.config.duration_ms((m.packets.len() - 1) as nat) as int;
            let before = m.current_delay_ms as int;
            let after = t.current_delay_ms as int;
            let band = packet_time(m.config);
            &&& r is Some && r->0.header.sequence_number == (l + 1) % 0x1_0000
            &&& t.packets.len() == m.packets.len() - 1
            &&& m.pop_count + 1 < 250 ==> after == before && t.pop_count == m.pop_count + 1
            &&& m.pop_count + 1 >= 250 ==> t.pop_count == 0
            &&& m.pop_count + 1 >= 250 && held > wanted + band ==> after <= before && (before
                > m.config.min_delay_ms ==> after < before)
            &&& m.pop_count + 1 >= 250 && held < wanted - band ==> after >= before && (before
                < m.config.max_delay_ms ==> after > before)
            &&& m.pop_count + 1 >= 250 && wanted - band <= held <= wanted + band ==> after
                == before
        }),
{
    let k = ((l + 1) % 0x1_0000) as u16;
    lemma_among(m.packets, k);
    let started = JitterModel {
        playout_started: true,
        pop_count: (m.pop_count + 1) as u32,
        drift_check: (m.drift_check + 1) as u32,
        ..m
    };
    assert(started.trimmed() == started);
    jitter::lemma_slot(m.packets, k);
    let c = started.played(k);
    assert(c.packets.len() == m.packets.len() - 1);
    let d = JitterModel { pop_count: 0, ..c };
    law_delay_follows_jitter(d, jitter_target_ms, wanted);
    let e = c.batch_adapted(jitter_target_ms);
    assert(e.drift_checked() == e);
    assert(jitter::key(m.packets[jitter::slot(m.packets, k)]) == k);
}

/// How far two packets came apart against how far their timestamps are apart, in
/// milliseconds: `arrived` is the time between them, rounded down; `stamped` the
/// difference of the timestamps, which wrap, rounded towards zero.
pub open spec fn apart(m: JitterModel, ts: u32, ns: int, arrived: int, stamped: int) -> bool {
    let rate = m.config.sample_rate as int;
    &&& arrived * 1_000_000 <= ns < (arrived + 1) * 1_000_000
    &&& exists|units: int|
        {
            &&& #[trigger] stamps(m, ts, units)
            &&& 0 <= units ==> stamped * rate <= units * 1000 < (stamped + 1) * rate
            &&& units < 0 ==> (stamped - 1) * rate < units * 1000 <= stamped * rate
        }
}

/// The difference of the timestamps of a packet and the last one in order.
pub open spec fn stamps(m: JitterModel, ts: u32, units: int) -> bool {
    &&& -0x8000_0000 <= units < 0x8000_0000
    &&& m.last_timestamp matches Some(last) && (last + units - ts) % 0x1_0000_0000 == 0
}

/// The deviation that a packet shows is how far the time between it and the last
/// one in order is from the time between their timestamps.
pub proof fn law_deviation_measured(m: JitterModel, p: PacketModel, last: u64, now: u64)
    requires
        m.config.is_valid(),
        m.last_arrival == Some(last),
        m.last_timestamp is Some,
        last <= now,
        !past(m, p.header.sequence_number),
        !m.jumped(p.header.timestamp),
    ensures
        exists|arrived: int, stamped: int|
            {
                &&& #[trigger] apart(m, p.header.timestamp, now - last, arrived, stamped)
                &&& m.pushed(p, now).1 matches JitterStep::Deviation(d)
                &&& d == arrived - stamped || d == stamped - arrived
            },
{
    let ts = p.header.timestamp;
    let units = jitter::timestamp_delta(ts, m.last_timestamp->0);
    let rate = m.config.sample_rate as int;
    let arrived = (now - last) / 1_000_000;
    let stamped = jitter::toward_zero(units * 1000, rate);
    let raw = (ts - m.last_timestamp->0) % 0x1_0000_0000;
    assert((m.last_timestamp->0 + raw - ts) % 0x1_0000_0000 == 0);
    assert(stamps(m, ts, units));
    let a = if units >= 0 {
        units * 1000
    } else {
        -units * 1000
    };
    let q = a / rate;
    vstd::arithmetic::div_mod::lemma_fundamental_div_mod(a, rate);
    assert(q * rate <= a < (q + 1) * rate && 0 <= q <= a) by (nonlinear_arith)
        requires
            rate > 0,
            a >= 0,
            a == rate * q + a % rate,
            0 <= a % rate < rate,
    ;
    if units < 0 {
        assert(stamped == -q);
        assert((-q) * rate == -(q * rate) && (-q - 1) * rate == -((q + 1) * rate))
            by (nonlinear_arith);
    }
    assert(apart(m, ts, now - last, arrived, stamped));
    assert(0 <= m.deviation(ts, now) <= u64::MAX);
}

/// A packet whose number was played, or lies less than half the range before one
/// that was, is dropped: it is counted as received and as dropped, and changes
/// nothing else.
pub proof fn law_late_packet_dropped(m: JitterModel, p: PacketModel, l: u16, now: u64)
    requires
        m.has_room(),
        m.last_played == Some(l),
        (l - p.header.sequence_number) % 0x1_0000 < 0x8000,
    ensures
        ({
            let (t, step) = m.pushed(p, now);
            &&& step == JitterStep::Unchanged
            &&& t.packets == m.packets
            &&& t.stats.packets_received == m.stats.packets_received + 1
            &&& t.stats.packets_dropped == m.stats.packets_dropped + 1
            &&& t.last_played == m.last_played
            &&& t.last_timestamp == m.last_timestamp
            &&& t.nacks == m.nacks
        }),
{
}

/// A timestamp more than five seconds away starts the buffer over, with the
/// packet alone; one that is nearer does not.
pub proof fn law_jump_starts_over(m: JitterModel, p: PacketModel, now: u64, units: int)
    requires
        m.last_arrival is Some,
        stamps(m, p.header.timestamp, units),
        !past(m, p.header.sequence_number),
    ensures
        ({
            let (t, step) = m.pushed(p, now);
            let five = 5 * m.config.sample_rate;
            &&& (units > five || units < -five) <==> m.jumped(p.header.timestamp)
            &&& units > five || units < -five ==> {
                &&& step == JitterStep::Reset
                &&& t.packets == seq![p]
                &&& t.stats.packets_received == 1
                &&& t.last_played is None
                &&& !t.initial_buffering_done && !t.playout_started
                &&& t.nacks.len() == 0
            }
        }),
{
    let ts = p.header.timestamp;
    let last = m.last_timestamp->0;
    let raw = (ts - last) % 0x1_0000_0000;
    assert((ts - last - units) % 0x1_0000_0000 == 0) by {
        let x = last + units - ts;
        assert(x % 0x1_0000_0000 == 0);
        assert((-x) % 0x1_0000_0000 == 0);
    }
    assert(jitter::timestamp_delta(ts, last) == units);
}

/// A packet that is neither late nor there is taken in, and one that is there is
/// counted as a duplicate; every packet counts as received.
pub proof fn law_packet_taken_in(m: JitterModel, p: PacketModel, now: u64)
    requires
        m.wf(),
        m.has_room(),
        !past(m, p.header.sequence_number),
        !m.jumped(p.header.timestamp),
        m.packets.len() < m.config.max_packets,
    ensures
        ({
            let t = m.pushed(p, now).0;
            let k = p.header.sequence_number;
            &&& t.stats.packets_received == m.stats.packets_received + 1
            &&& among(m.packets, k) ==> t.packets == m.packets && t.stats.packets_duplicated
                == m.stats.packets_duplicated + 1
            &&& !among(m.packets, k) ==> {
                &&& t.packets.len() == m.packets.len() + 1
                &&& t.packets.contains(p)
                &&& forall|i: int|
                    0 <= i < m.packets.len() ==> t.packets.contains(#[trigger] m.packets[i])
                &&& t.stats.packets_dropped == m.stats.packets_dropped
                &&& t.stats.packets_duplicated == m.stats.packets_duplicated
                &&& t.stats.buffer_size == t.packets.len()
            }
        }),
{
    let k = p.header.sequence_number;
    let a = m.received().timed(p.header.timestamp, now).order_noted(k);
    let noted = a.gap_noted(k);
    jitter::lemma_gap_keeps(a, k);
    lemma_gap_stats(a, k);
    lemma_among(m.packets, k);
    jitter::lemma_slot(m.packets, k);
    if !jitter::holds(m.packets, k) {
        let n = jitter::slot(m.packets, k);
        let expects = if noted.next_sequence matches Some(e) && jitter::seq_before(k, e) {
            noted.next_sequence
        } else {
            Some(jitter::seq_plus(k, 1))
        };
        let added = JitterModel {
            next_sequence: expects,
            packets: jitter::with_packet(noted.packets, p),
            ..noted
        };
        assert(added.evicted() == added);
        let t = m.pushed(p, now).0;
        assert(t.packets == m.packets.insert(n, p));
        jitter::lemma_ordered(m.packets, p, 0);
        assert(t.packets[n] == p);
        assert forall|i: int| 0 <= i < m.packets.len() implies t.packets.contains(
            #[trigger] m.packets[i],
        ) by {
            if i < n {
                assert(t.packets[i] == m.packets[i]);
            } else {
                assert(t.packets[i + 1] == m.packets[i]);
            }
        }
    }
}

proof fn lemma_gap_stats(m: JitterModel, k: u16)
    ensures
        m.gap_noted(k).stats.packets_received == m.stats.packets_received,
        m.gap_noted(k).stats.packets_dropped == m.stats.packets_dropped,
        m.gap_noted(k).stats.packets_duplicated == m.stats.packets_duplicated,
        m.gap_noted(k).next_sequence == m.next_sequence,
{
    if m.next_sequence is Some {
        lemma_nack_stats(m, m.next_sequence->0, ((k - m.next_sequence->0) % 0x1_0000) as nat);
    }
}

proof fn lemma_nack_stats(m: JitterModel, e: u16, n: nat)
    ensures
        m.nacks_from(e, n).stats.packets_received == m.stats.packets_received,
        m.nacks_from(e, n).stats.packets_dropped == m.stats.packets_dropped,
        m.nacks_from(e, n).stats.packets_duplicated == m.stats.packets_duplicated,
        m.nacks_from(e, n).next_sequence == m.next_sequence,
    decreases n,
{
    if n > 0 {
        lemma_nack_stats(m, e, (n - 1) as nat);
    }
}

/// Over a full buffer, the oldest packet goes: the one that comes before all the
/// others.
pub proof fn law_oldest_goes_first(m: JitterModel, k: u16)
    requires
        m.wf(),
        m.packets.len() == m.config.max_packets + 1,
        among(m.packets, k),
        forall|i: int|
            0 <= i < m.packets.len() && (#[trigger] m.packets[i]).header.sequence_number != k
                ==> jitter::seq_before(k, m.packets[i].header.sequence_number),
    ensures
        m.evicted().packets.len() == m.config.max_packets,
        !among(m.evicted().packets, k),
        forall|i: int|
            0 <= i < m.packets.len() && (#[trigger] m.packets[i]).header.sequence_number != k
                ==> m.evicted().packets.contains(m.packets[i]),
        m.stats.packets_dropped < u64::MAX ==> m.evicted().stats.packets_dropped
            == m.stats.packets_dropped + 1,
{
    let s = m.packets;
    lemma_among(s, k);
    assert forall|i: int| 0 <= i < s.len() && jitter::key(#[trigger] s[i]) != k implies
        jitter::seq_before(k, jitter::key(s[i])) by {
        assert(s[i].header.sequence_number != k);
    }
    jitter::law_oldest_is_first(s, k);
    jitter::lemma_slot(s, k);
    jitter::lemma_without(s, k);
    let n = jitter::slot(s, k);
    let t = jitter::without(s, k);
    let next = m.removed(k).dropped();
    assert(t == s.remove(n));
    assert(next.evicted() == next);
    assert(m.evicted() == next);
    assert forall|i: int| 0 <= i < s.len() && (#[trigger] s[i]).header.sequence_number
        != k implies t.contains(s[i]) by {
        if i < n {
            assert(t[i] == s[i]);
        } else {
            assert(i > n);
            assert(t[i - 1] == s[i]);
        }
    }
    if among(t, k) {
        let i = choose|i: int| 0 <= i < t.len() && (#[trigger] t[i]).header.sequence_number == k;
        assert(jitter::key(t[i]) != k);
    }
}

/// Playout may begin exactly once the buffer holds as much as its delay, or the
/// delay that it started with if that is less.
pub proof fn law_when_playout_begins(m: JitterModel, p: PacketModel, now: u64)
    requires
        m.wf(),
        !m.initial_buffering_done,
        !past(m, p.header.sequence_number),
        !m.jumped(p.header.timestamp),
        !among(m.packets, p.header.sequence_number),
    ensures
        ({
            let t = m.pushed(p, now).0;
            let held = m.config.duration_ms(t.packets.len());
            t.initial_buffering_done <==> held >= m.current_delay_ms || held
                >= m.config.target_delay_ms
        }),
{
    let k = p.header.sequence_number;
    let a = m.received().timed(p.header.timestamp, now).order_noted(k);
    let noted = a.gap_noted(k);
    jitter::lemma_gap_keeps(a, k);
    lemma_among(m.packets, k);
    jitter::lemma_slot(noted.packets, k);
    jitter::lemma_ordered(noted.packets, p, 0);
    let expects = if noted.next_sequence matches Some(e) && jitter::seq_before(k, e) {
        noted.next_sequence
    } else {
        Some(jitter::seq_plus(k, 1))
    };
    let added = JitterModel {
        next_sequence: expects,
        packets: jitter::with_packet(noted.packets, p),
        ..noted
    };
    jitter::lemma_evicted_keeps(added);
}

/// A gap of at most a hundred numbers before a packet is asked for again: each
/// number from the expected one on that is not there. A wider gap is not.
pub proof fn law_gap_asked_for(m: JitterModel, e: u16, gap: int)
    requires
        jitter::ordered(m.packets),
        m.config.nack_enabled,
        m.next_sequence == Some(e),
        m.nacks.len() == 0,
        m.stats.nack_requests + 100 <= u64::MAX,
        0 < gap < 0x8000,
    ensures
        ({
            let t = m.gap_noted(((e + gap) % 0x1_0000) as u16);
            &&& gap > 100 ==> t == m
            &&& gap <= 100 ==> forall|i: int|
                0 <= i < gap ==> (#[trigger] t.nacks.contains(((e + i) % 0x1_0000) as u16)
                    <==> !among(m.packets, ((e + i) % 0x1_0000) as u16))
            &&& t.nacks.len() <= 100
            &&& t.stats.nack_requests == m.stats.nack_requests + t.nacks.len()
        }),
{
    let k = ((e + gap) % 0x1_0000) as u16;
    assert((k - e) % 0x1_0000 == gap);
    if gap <= 100 {
        lemma_nacks(m, e, gap as nat);
        let t = m.gap_noted(k);
        assert forall|i: int| 0 <= i < gap implies (#[trigger] t.nacks.contains(
            ((e + i) % 0x1_0000) as u16,
        ) <==> !among(m.packets, ((e + i) % 0x1_0000) as u16)) by {
            let x = ((e + i) % 0x1_0000) as u16;
            assert(asked(m, e, gap as nat, x) <==> t.nacks.contains(x));
            if t.nacks.contains(x) {
                let j = choose|j: int|
                    0 <= j < gap && #[trigger] jitter::seq_plus(e, j) == x && !among(m.packets, x);
                assert(!among(m.packets, x));
            }
            if !among(m.packets, x) {
                assert(jitter::seq_plus(e, i) == x);
            }
        }
    }
}

spec fn asked(m: JitterModel, e: u16, n: nat, x: u16) -> bool {
    exists|j: int| 0 <= j < n && #[trigger] jitter::seq_plus(e, j) == x && !among(m.packets, x)
}

proof fn lemma_nacks(m: JitterModel, e: u16, n: nat)
    requires
        jitter::ordered(m.packets),
        m.nacks.len() == 0,
        m.stats.nack_requests + 100 <= u64::MAX,
        n <= 100,
    ensures
        ({
            let t = m.nacks_from(e, n);
            &&& t.nacks.len() <= n
            &&& t.packets == m.packets
            &&& t.stats.nack_requests == m.stats.nack_requests + t.nacks.len()
            &&& forall|x: u16| t.nacks.contains(x) <==> #[trigger] asked(m, e, n, x)
        }),
    decreases n,
{
    if n > 0 {
        let u = m.nacks_from(e, (n - 1) as nat);
        let t = m.nacks_from(e, n);
        lemma_nacks(m, e, (n - 1) as nat);
        jitter::lemma_nacks_keep(m, e, (n - 1) as nat);
        let k = jitter::seq_plus(e, n - 1);
        lemma_among(m.packets, k);
        assert forall|x: u16| t.nacks.contains(x) <==> #[trigger] asked(m, e, n, x) by {
            assert(u.nacks.contains(x) <==> asked(m, e, (n - 1) as nat, x));
            if asked(m, e, (n - 1) as nat, x) {
                let j = choose|j: int|
                    0 <= j < n - 1 && #[trigger] jitter::seq_plus(e, j) == x && !among(m.packets, x);
                assert(jitter::seq_plus(e, j) == x);
                let i = choose|i: int| 0 <= i < u.nacks.len() && u.nacks[i] == x;
                assert(t.nacks[i] == x);
            }
            if !among(m.packets, k) {
                assert(t.nacks == u.nacks.push(k));
                assert(t.nacks[u.nacks.len() as int] == k);
                if x == k {
                    assert(jitter::seq_plus(e, n - 1) == x);
                }
                if t.nacks.contains(x) && x != k {
                    let i = choose|i: int| 0 <= i < t.nacks.len() && t.nacks[i] == x;
                    assert(u.nacks[i] == x);
                }
            }
            if asked(m, e, n, x) && !asked(m, e, (n - 1) as nat, x) {
                let j = choose|j: int|
                    0 <= j < n && #[trigger] jitter::seq_plus(e, j) == x && !among(m.packets, x);
                assert(j == n - 1);
                assert(x == k);
            }
        }
    } else {
        assert forall|x: u16| m.nacks.contains(x) <==> #[trigger] asked(m, e, 0, x) by {}
    }
}

/// A number that is missing is waited for: while the buffer is running low, and
/// as many times as the settings say. Then it counts as lost and playout moves
/// on by one, unless the buffer is more than half full: then it moves on to the
/// oldest packet.
pub proof fn law_missing_packet(m: JitterModel, target: u16, jitter_target_ms: u32)
    requires
        m.wf(),
        m.initial_buffering_done,
        m.stats.packets_lost < u64::MAX,
        !among(m.packets, target),
    ensures
        ({
            let (t, r) = m.popped_at(target, jitter_target_ms);
            let low = m.config.duration_ms(m.packets.len()) < m.current_delay_ms / 2;
            let waits = m.consecutive_miss + 1 < m.config.max_wait_before_loss;
            &&& low ==> t == m && r is None
            &&& !low && waits ==> r is None && t.consecutive_miss == m.consecutive_miss + 1
                && t.last_played == m.last_played && t.packets == m.packets
                && t.stats.packets_lost == m.stats.packets_lost
            &&& !low && !waits && m.packets.len() <= m.config.max_packets / 2 ==> r is None
                && t.last_played == Some(target) && t.packets == m.packets
                && t.stats.packets_lost == m.stats.packets_lost + 1 && t.consecutive_miss == 0
            &&& !low && !waits && m.packets.len() > m.config.max_packets / 2 ==> r is Some
                && t.last_played == Some(r->0.header.sequence_number) && m.packets.contains(r->0)
                && t.packets.len() == m.packets.len() - 1
        }),
{
    lemma_among(m.packets, target);
    if m.packets.len() > 0 {
        let k = jitter::oldest(m.packets);
        jitter::lemma_oldest(m.packets);
        jitter::lemma_slot(m.packets, k);
        assert(jitter::key(m.packets[jitter::slot(m.packets, k)]) == k);
    }
}

/// What lies between a number that is given up and the oldest packet that is
/// played in its place counts as lost too.
pub proof fn law_skipped_are_lost(m: JitterModel, target: u16, k: u16, jitter_target_ms: u32)
    requires
        m.wf(),
        m.initial_buffering_done,
        m.stats.packets_lost + 0x1_0000 <= u64::MAX,
        !among(m.packets, target),
        m.config.duration_ms(m.packets.len()) >= m.current_delay_ms / 2,
        m.consecutive_miss + 1 >= m.config.max_wait_before_loss,
        m.packets.len() > m.config.max_packets / 2,
        jitter::oldest(m.packets) == k,
        jitter::seq_before(target, k),
    ensures
        m.popped_at(target, jitter_target_ms).0.stats.packets_lost == m.stats.packets_lost + (k
            - target) % 0x1_0000,
{
    lemma_among(m.packets, target);
    assert((k - target - 1) % 0x1_0000 == (k - target) % 0x1_0000 - 1);
}

/// A buffer that holds more than twice its delay gives up its oldest packet
/// before it plays.
pub proof fn law_overfull_drops(m: JitterModel)
    requires
        m.wf(),
        m.initial_buffering_done,
        m.current_delay_ms > 0,
        m.packets.len() > 0,
        m.stats.packets_dropped < u64::MAX,
    ensures
        ({
            let t = m.trimmed();
            let over = m.config.duration_ms(m.packets.len()) > 2 * m.current_delay_ms;
            &&& !over ==> t == m
            &&& over ==> t.packets.len() == m.packets.len() - 1 && !among(
                t.packets,
                jitter::oldest(m.packets),
            ) && t.stats.packets_dropped == m.stats.packets_dropped + 1
        }),
{
    let k = jitter::oldest(m.packets);
    jitter::lemma_oldest(m.packets);
    jitter::lemma_slot(m.packets, k);
    jitter::lemma_without(m.packets, k);
    let s = jitter::without(m.packets, k);
    if among(s, k) {
        let i = choose|i: int| 0 <= i < s.len() && (#[trigger] s[i]).header.sequence_number == k;
        assert(jitter::key(s[i]) != k);
    }
}

/// Nothing is played before the buffer has filled, and a pop from a buffer that
/// has never played begins with its oldest packet.
pub proof fn law_first_pop(m: JitterModel, jitter_target_ms: u32)
    requires
        m.wf(),
        m.last_played is None,
        m.packets.len() > 0,
        m.config.duration_ms(m.packets.len()) <= 2 * m.current_delay_ms,
    ensures
        !m.initial_buffering_done && !m.playout_started ==> m.popped(jitter_target_ms) == (
            m,
            None::<PacketModel>,
        ),
        m.initial_buffering_done ==> m.popped(jitter_target_ms).1 is Some && m.popped(
            jitter_target_ms,
        ).1->0.header.sequence_number == jitter::oldest(m.packets),
{
    let k = jitter::oldest(m.packets);
    jitter::lemma_oldest(m.packets);
    jitter::lemma_slot(m.packets, k);
    assert(jitter::key(m.packets[jitter::slot(m.packets, k)]) == k);
}

/// A buffer that drifts full: looked at every 500 pops, the third time in a row
/// that it holds over two packets more than it started for, the next packet is
/// passed over; once it does not, the row ends.
pub proof fn law_drift(m: JitterModel, l: u16)
    requires
        m.wf(),
        m.last_played == Some(l),
        m.drift_check > 0,
        m.drift_check % 500 == 0,
    ensures
        ({
            let t = m.drift_checked();
            let high = m.packets.len() > m.config.target_delay_ms as int / packet_time(m.config)
                + 2;
            &&& !high ==> t.drift_high == 0 && t.last_played == m.last_played && t.packets
                == m.packets
            &&& high && m.drift_high < 2 ==> t.drift_high == m.drift_high + 1 && t.last_played
                == m.last_played && t.packets == m.packets
            &&& high && m.drift_high == 2 ==> t.drift_high == 0 && t.last_played == Some(
                ((l + 1) % 0x1_0000) as u16,
            ) && !among(t.packets, ((l + 1) % 0x1_0000) as u16)
        }),
{
    let ms = m.config.samples_per_packet * 1000 / (m.config.sample_rate as int);
    assert(m.config.packet_ms() == ms);
    let k = ((l + 1) % 0x1_0000) as u16;
    lemma_among(m.packets, k);
    jitter::lemma_without(m.packets, k);
    let s = jitter::without(m.packets, k);
    if among(s, k) {
        let i = choose|i: int| 0 <= i < s.len() && (#[trigger] s[i]).header.sequence_number == k;
        assert(jitter::key(s[i]) != k);
    }
    let t = m.drift_checked();
    if t.packets != s {
        assert(t.packets == m.packets);
    }
}

/// Where the figures of a redundant block's header stand: behind the flag seven
/// bits of payload type, then fourteen of timestamp offset, then ten of length.
pub proof fn law_red_header(d: Seq<u8>, off: int)
    requires
        0 <= off <= d.len() - 4,
    ensures
        ({
            let word = wire::number(d.subrange(off, off + 4));
            let b = jitter::red_block(d, off);
            &&& b.payload_type == word / 0x100_0000 % 0x80
            &&& b.timestamp_offset == word / 0x400 % 0x4000
            &&& b.len == word % 0x400
        }),
{
    wire::law_read_number(d, off);
    let a = d[off] as int;
    let b = d[off + 1] as int;
    let c = d[off + 2] as int;
    let e = d[off + 3] as int;
    let word = a * 0x100_0000 + b * 0x1_0000 + c * 0x100 + e;
    assert(wire::number(d.subrange(off, off + 4)) == word);
    assert(word / 0x100_0000 == a);
    let c1 = c / 4;
    let c2 = c % 4;
    assert(word == (a * 0x4000 + b * 0x40 + c1) * 0x400 + c2 * 0x100 + e);
    assert(word / 0x400 == a * 0x4000 + b * 0x40 + c1);
    assert((a * 0x4000 + b * 0x40 + c1) % 0x4000 == b * 0x40 + c1);
}

/// The packet that a redundant block stands for: as many packets before its
/// carrier as its offset amounts to, and one; sampled earlier by the offset; its
/// payload the block's bytes.
pub proof fn law_red_packet(m: JitterModel, carrier: PacketModel, b: RedBlock, data: Seq<u8>)
    requires
        m.config.samples_per_packet > 0,
    ensures
        ({
            let p = m.red_packet(carrier, b, data);
            let h = p.header;
            &&& p.payload == data
            &&& exists|back: int|
                {
                    &&& #[trigger] (back * m.config.samples_per_packet) <= b.timestamp_offset
                    &&& b.timestamp_offset < back * m.config.samples_per_packet
                        + m.config.samples_per_packet
                    &&& (carrier.header.sequence_number - h.sequence_number - 1 - back)
                        % 0x1_0000 == 0
                }
            &&& (carrier.header.timestamp - h.timestamp - b.timestamp_offset) % 0x1_0000_0000 == 0
            &&& h.payload_type == b.payload_type
            &&& !h.marker
            &&& h.ssrc == carrier.header.ssrc
        }),
{
    let spp = m.config.samples_per_packet as int;
    let off = b.timestamp_offset as int;
    let back = off / spp;
    vstd::arithmetic::div_mod::lemma_fundamental_div_mod(off, spp);
    assert(back * spp <= off < back * spp + spp) by (nonlinear_arith)
        requires
            off == spp * back + off % spp,
            0 <= off % spp < spp,
    ;
    let s = carrier.header.sequence_number as int;
    let n = (s - back - 1) % 0x1_0000;
    assert((s - n - 1 - back) % 0x1_0000 == 0);
    let ts = carrier.header.timestamp as int;
    let t = (ts - off) % 0x1_0000_0000;
    assert((ts - t - off) % 0x1_0000_0000 == 0);
}

/// A redundant block is taken in exactly if its bytes are all there and its
/// number is neither in the buffer nor played.
pub proof fn law_red_block_fills_gap(m: JitterModel, carrier: PacketModel, b: RedBlock, start: int)
    requires
        m.wf(),
        m.config.samples_per_packet > 0,
        0 <= start,
        m.stats.nack_recovered < u64::MAX,
    ensures
        ({
            let t = m.block_recovered(carrier, b, start);
            let whole = start + b.len <= carrier.payload.len();
            let p = m.red_packet(carrier, b, carrier.payload.subrange(start, start + b.len));
            let k = p.header.sequence_number;
            &&& !whole || past(m, k) || among(m.packets, k) ==> t == m
            &&& whole && !past(m, k) && !among(m.packets, k) ==> t.packets.contains(p)
                && t.packets.len() == m.packets.len() + 1 && t.stats.nack_recovered
                == m.stats.nack_recovered + 1
        }),
{
    let p = m.red_packet(carrier, b, carrier.payload.subrange(start, start + b.len));
    let k = p.header.sequence_number;
    lemma_among(m.packets, k);
    jitter::lemma_slot(m.packets, k);
    let t = m.block_recovered(carrier, b, start);
    if t != m {
        assert(t.packets[jitter::slot(m.packets, k)] == p);
    }
}

/// The data of the blocks stands one behind the other.
pub proof fn law_red_data_in_a_row(blocks: Seq<RedBlock>, i: int)
    requires
        0 <= i < blocks.len(),
    ensures
        jitter::red_len(blocks, 0) == 0,
        jitter::red_len(blocks, (i + 1) as nat) == jitter::red_len(blocks, i as nat) + blocks[i].len,
{
}

/// What is drained is what pops give, one after the other: the first is that of
/// the next pop, and the rest what is drained after it, as long as each pop
/// takes something out.
pub proof fn law_drained_one_by_one(m: JitterModel, jitter_target_ms: u32)
    ensures
        ({
            let (after, first) = m.popped(jitter_target_ms);
            let (end, out) = m.drained(jitter_target_ms);
            &&& first is None <==> out.len() == 0
            &&& first is None ==> end == after
            &&& first is Some ==> out[0] == first->Some_0
            &&& first is Some && after.packets.len() < m.packets.len() ==> out.skip(1)
                == after.drained(jitter_target_ms).1 && end == after.drained(jitter_target_ms).0
        }),
{
    let (after, first) = m.popped(jitter_target_ms);
    let (end, out) = m.drained(jitter_target_ms);
    if first is Some && after.packets.len() < m.packets.len() {
        assert(out.skip(1) =~= after.drained(jitter_target_ms).1);
    }
}

} // verus!
