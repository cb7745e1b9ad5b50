//! Adaptive jitter buffer.
//!
//! Packets wait here in the order of their sequence numbers until they are
//! played. The caller keeps the smoothed jitter, which is not an integer:
//! `push` says by how much a packet was early or late, and `pop` is told how
//! much delay the smoothed value calls for.

pub mod laws;

use crate::rtp::packet::RtpPacket;
use crate::rtp::packet::{HeaderModel, PacketModel};
use crate::wire::copy_range;
use std::collections::VecDeque;
use vstd::prelude::*;

verus! {

/// Counters of a jitter buffer.
#[derive(Debug, Clone, Copy)]
pub struct JitterStats {
    /// Packets received.
    pub packets_received: u64,
    /// Packets counted as lost.
    pub packets_lost: u64,
    /// Packets dropped: too late, or to make room.
    pub packets_dropped: u64,
    /// Packets that came after a later one.
    pub packets_reordered: u64,
    /// Packets that were already buffered.
    pub packets_duplicated: u64,
    /// Current delay in milliseconds.
    pub buffer_delay_ms: u32,
    /// Packets buffered.
    pub buffer_size: usize,
    /// Retransmissions asked for.
    pub nack_requests: u64,
    /// Packets recovered.
    pub nack_recovered: u64,
}

/// All counters at zero.
pub open spec fn no_stats() -> JitterStats {
    JitterStats {
        packets_received: 0,
        packets_lost: 0,
        packets_dropped: 0,
        packets_reordered: 0,
        packets_duplicated: 0,
        buffer_delay_ms: 0,
        buffer_size: 0,
        nack_requests: 0,
        nack_recovered: 0,
    }
}

impl Default for JitterStats {
    fn default() -> (s: JitterStats)
        ensures
            s == no_stats(),
    {
        JitterStats {
            packets_received: 0,
            packets_lost: 0,
            packets_dropped: 0,
            packets_reordered: 0,
            packets_duplicated: 0,
            buffer_delay_ms: 0,
            buffer_size: 0,
            nack_requests: 0,
            nack_recovered: 0,
        }
    }
}

/// Settings of a jitter buffer.
#[derive(Debug, Clone, Copy)]
pub struct JitterConfig {
    /// Least delay in milliseconds.
    pub min_delay_ms: u32,
    /// Greatest delay in milliseconds.
    pub max_delay_ms: u32,
    /// Delay to start with, in milliseconds.
    pub target_delay_ms: u32,
    /// Most packets to hold.
    pub max_packets: usize,
    /// Samples per second.
    pub sample_rate: u32,
    /// Samples per packet.
    pub samples_per_packet: u32,
    /// Whether to ask for retransmission.
    pub nack_enabled: bool,
    /// Misses in a row after which a packet counts as lost.
    pub max_wait_before_loss: u32,
}

impl JitterConfig {
    /// Settings under which no arithmetic of the buffer overflows and the delay
    /// range is not empty.
    pub open spec fn is_valid(self) -> bool {
        &&& self.sample_rate > 0
        &&& self.min_delay_ms <= self.max_delay_ms
        &&& self.max_delay_ms <= 0x7FFF_FFFF
        &&& self.target_delay_ms <= 0x7FFF_FFFF
        &&& self.samples_per_packet * 1000 <= u32::MAX
    }

    /// Whether a buffer can work with the settings.
    pub fn is_usable(&self) -> (r: bool)
        ensures
            r == self.is_valid(),
    {
        self.sample_rate > 0 && self.min_delay_ms <= self.max_delay_ms && self.max_delay_ms
            <= 0x7FFF_FFFF && self.target_delay_ms <= 0x7FFF_FFFF && self.samples_per_packet as u64
            * 1000 <= u32::MAX as u64
    }

    /// Milliseconds of audio in `n` packets, modulo the range of the counter.
    pub open spec fn duration_ms(self, n: nat) -> u32 {
        (n * self.samples_per_packet * 1000 / (self.sample_rate as int) % 0x1_0000_0000) as u32
    }

    /// Milliseconds of audio in one packet.
    pub open spec fn packet_ms(self) -> int {
        self.samples_per_packet * 1000 / (self.sample_rate as int)
    }
}

impl Default for JitterConfig {
    fn default() -> (c: JitterConfig)
        ensures
            c.is_valid(),
            c == (JitterConfig {
                min_delay_ms: 20,
                max_delay_ms: 200,
                target_delay_ms: 60,
                max_packets: 50,
                sample_rate: 8000,
                samples_per_packet: 160,
                nack_enabled: false,
                max_wait_before_loss: 2,
            }),
    {
        JitterConfig {
            min_delay_ms: 20,
            max_delay_ms: 200,
            target_delay_ms: 60,
            max_packets: 50,
            sample_rate: 8000,
            samples_per_packet: 160,
            nack_enabled: false,
            max_wait_before_loss: 2,
        }
    }
}

/// What a packet does to the smoothed jitter that the caller keeps.
#[derive(Debug, Clone, Copy, PartialEq, Eq, Structural)]
pub enum JitterStep {
    /// Nothing.
    Unchanged,
    /// It starts over at zero.
    Reset,
    /// It takes in a deviation: milliseconds for a jitter buffer, timestamp
    /// units for a control session.
    Deviation(u64),
}

// ---------------------------------------------------------------------------
// Sequence numbers
// ---------------------------------------------------------------------------

/// `a` comes before `b`, less than half the range of sequence numbers apart.
pub open spec fn seq_before(a: u16, b: u16) -> bool {
    0 < (b - a) % 0x1_0000 && (b - a) % 0x1_0000 < 0x8000
}

/// The sequence number `n` after `a`.
pub open spec fn seq_plus(a: u16, n: int) -> u16 {
    ((a + n) % 0x1_0000) as u16
}

/// The sequence number of a packet.
pub open spec fn key(p: PacketModel) -> u16 {
    p.header.sequence_number
}

/// Packets stand in ascending order of sequence numbers, none twice.
pub open spec fn ordered(s: Seq<PacketModel>) -> bool {
    forall|i: int, j: int| 0 <= i < j < s.len() ==> key(#[trigger] s[i]) < key(#[trigger] s[j])
}

/// Where a sequence number stands or would stand.
pub open spec fn slot(s: Seq<PacketModel>, k: u16) -> int
    decreases s.len(),
{
    if s.len() == 0 || key(s.last()) < k {
        s.len() as int
    } else {
        slot(s.drop_last(), k)
    }
}

/// A packet with this sequence number is there.
pub open spec fn holds(s: Seq<PacketModel>, k: u16) -> bool {
    slot(s, k) < s.len() && key(s[slot(s, k)]) == k
}

/// The packets with one more.
pub open spec fn with_packet(s: Seq<PacketModel>, p: PacketModel) -> Seq<PacketModel> {
    s.insert(slot(s, key(p)), p)
}

/// The packets without one.
pub open spec fn without(s: Seq<PacketModel>, k: u16) -> Seq<PacketModel> {
    if holds(s, k) {
        s.remove(slot(s, k))
    } else {
        s
    }
}

/// The oldest sequence number: in ascending order, each one that comes before
/// the choice so far takes its place.
pub open spec fn oldest(s: Seq<PacketModel>) -> u16
    decreases s.len(),
{
    if s.len() <= 1 {
        key(s[0])
    } else {
        let o = oldest(s.drop_last());
        if seq_before(key(s.last()), o) {
            key(s.last())
        } else {
            o
        }
    }
}

/// Everything below a slot is smaller, everything from it on is not.
pub proof fn lemma_slot(s: Seq<PacketModel>, k: u16)
    requires
        ordered(s),
    ensures
        0 <= slot(s, k) <= s.len(),
        forall|i: int| 0 <= i < slot(s, k) ==> key(#[trigger] s[i]) < k,
        forall|i: int| slot(s, k) <= i < s.len() ==> key(#[trigger] s[i]) >= k,
        holds(s, k) <==> exists|i: int| 0 <= i < s.len() && key(#[trigger] s[i]) == k,
    decreases s.len(),
{
    if s.len() > 0 && key(s.last()) >= k {
        let t = s.drop_last();
        lemma_slot(t, k);
        assert forall|i: int| 0 <= i < slot(s, k) implies key(#[trigger] s[i]) < k by {
            assert(t[i] == s[i]);
        }
        assert forall|i: int| slot(s, k) <= i < s.len() implies key(#[trigger] s[i]) >= k by {
            if i < s.len() - 1 {
                assert(t[i] == s[i]);
            }
        }
    }
    if exists|i: int| 0 <= i < s.len() && key(#[trigger] s[i]) == k {
        let i = choose|i: int| 0 <= i < s.len() && key(#[trigger] s[i]) == k;
        let n = slot(s, k);
        assert(n <= i);
        if n < i {
            assert(key(s[n]) < key(s[i]));
        }
    }
}

/// A slot is the place where smaller numbers end.
proof fn lemma_slot_is(s: Seq<PacketModel>, k: u16, n: int)
    requires
        ordered(s),
        0 <= n <= s.len(),
        forall|i: int| 0 <= i < n ==> key(#[trigger] s[i]) < k,
        n == s.len() || key(s[n]) >= k,
    ensures
        slot(s, k) == n,
{
    lemma_slot(s, k);
    if slot(s, k) < n {
        assert(key(s[slot(s, k)]) < k);
    } else if slot(s, k) > n {
        assert(key(s[n]) < k);
    }
}

/// Adding a new number and taking one away keep the order.
pub proof fn lemma_ordered(s: Seq<PacketModel>, p: PacketModel, k: u16)
    requires
        ordered(s),
    ensures
        !holds(s, key(p)) ==> ordered(with_packet(s, p)) && holds(with_packet(s, p), key(p)),
        ordered(without(s, k)),
        s.len() <= 0x1_0000,
{
    lemma_slot(s, key(p));
    lemma_slot(s, k);
    lemma_len(s, s.len() as int);
    if !holds(s, key(p)) {
        let t = with_packet(s, p);
        assert(ordered(t));
        lemma_slot(t, key(p));
        assert(t[slot(s, key(p))] == p);
    }
}

proof fn lemma_len(s: Seq<PacketModel>, n: int)
    requires
        ordered(s),
        0 <= n <= s.len(),
    ensures
        n > 0 ==> key(s[n - 1]) >= n - 1,
        n <= 0x1_0000,
    decreases n,
{
    if n > 1 {
        lemma_len(s, n - 1);
        assert(key(s[n - 2]) < key(s[n - 1]));
    }
}

/// The oldest number is one of those there.
pub proof fn lemma_oldest(s: Seq<PacketModel>)
    requires
        ordered(s),
        s.len() > 0,
    ensures
        holds(s, oldest(s)),
    decreases s.len(),
{
    lemma_slot(s, oldest(s));
    if s.len() > 1 {
        let t = s.drop_last();
        lemma_oldest(t);
        lemma_slot(t, oldest(t));
        if oldest(s) == oldest(t) {
            let i = choose|i: int| 0 <= i < t.len() && key(#[trigger] t[i]) == oldest(t);
            assert(s[i] == t[i]);
        } else {
            assert(key(s[s.len() - 1]) == oldest(s));
        }
    } else {
        assert(key(s[0]) == oldest(s));
    }
}

/// Where one of the numbers comes before all the others, it is the oldest.
pub proof fn law_oldest_is_first(s: Seq<PacketModel>, k: u16)
    requires
        ordered(s),
        holds(s, k),
        forall|i: int| 0 <= i < s.len() && key(#[trigger] s[i]) != k ==> seq_before(k, key(s[i])),
    ensures
        oldest(s) == k,
    decreases s.len(),
{
    lemma_slot(s, k);
    if s.len() > 1 {
        let t = s.drop_last();
        lemma_slot(t, k);
        lemma_oldest(t);
        lemma_slot(t, oldest(t));
        assert forall|i: int| 0 <= i < t.len() && key(#[trigger] t[i]) != k implies seq_before(
            k,
            key(t[i]),
        ) by {
            assert(t[i] == s[i]);
        }
        if key(s.last()) == k {
            let i = choose|i: int| 0 <= i < t.len() && key(#[trigger] t[i]) == oldest(t);
            assert(s[i] == t[i]);
            assert(key(s[i]) < key(s[s.len() - 1]));
            assert(seq_before(k, key(s[i])));
        } else {
            let i = choose|i: int| 0 <= i < s.len() && key(#[trigger] s[i]) == k;
            assert(t[i] == s[i]);
            law_oldest_is_first(t, k);
            assert(seq_before(k, key(s[s.len() - 1])));
        }
    }
}

// ---------------------------------------------------------------------------
// Model
// ---------------------------------------------------------------------------

/// The mathematical content of a jitter buffer.
#[verifier::ext_equal]
pub struct JitterModel {
    pub config: JitterConfig,
    /// Packets in ascending order of sequence numbers.
    pub packets: Seq<PacketModel>,
    pub next_sequence: Option<u16>,
    pub last_played: Option<u16>,
    pub stats: JitterStats,
    /// When the last in-order packet came, in nanoseconds.
    pub last_arrival: Option<u64>,
    pub last_timestamp: Option<u32>,
    pub current_delay_ms: u32,
    pub playout_started: bool,
    pub initial_buffering_done: bool,
    pub nacks: Seq<u16>,
    pub consecutive_miss: u32,
    pub pop_count: u32,
    pub drift_high: u32,
    pub drift_low: u32,
    pub drift_check: u32,
}

/// The signed distance from one timestamp to another.
pub open spec fn timestamp_delta(ts: u32, last: u32) -> int {
    let raw = (ts - last) % 0x1_0000_0000;
    if raw < 0x8000_0000 {
        raw
    } else {
        raw - 0x1_0000_0000
    }
}

/// Division that rounds towards zero.
pub open spec fn toward_zero(a: int, b: int) -> int {
    if a >= 0 {
        a / b
    } else {
        -((-a) / b)
    }
}

/// The magnitude of a number.
pub open spec fn magnitude(a: int) -> int {
    if a >= 0 {
        a
    } else {
        -a
    }
}

impl JitterModel {
    /// The buffer's invariant.
    pub open spec fn wf(self) -> bool {
        &&& self.config.is_valid()
        &&& ordered(self.packets)
        &&& self.nacks.len() <= 500
        &&& self.current_delay_ms <= 0x7FFF_FFFF
        &&& self.consecutive_miss == 0 || self.consecutive_miss < self.config.max_wait_before_loss
        &&& self.drift_high < 3
        &&& self.drift_low < 3
    }

    /// The counters are far enough from their limits for one more operation.
    pub open spec fn has_room(self) -> bool {
        &&& self.stats.packets_received <= u64::MAX - 0x2_0000
        &&& self.stats.packets_lost <= u64::MAX - 0x2_0000
        &&& self.stats.packets_dropped <= u64::MAX - 0x2_0000
        &&& self.stats.packets_reordered <= u64::MAX - 0x2_0000
        &&& self.stats.packets_duplicated <= u64::MAX - 0x2_0000
        &&& self.stats.nack_requests <= u64::MAX - 0x2_0000
        &&& self.stats.nack_recovered <= u64::MAX - 0x2_0000
        &&& self.pop_count < u32::MAX
        &&& self.drift_check < u32::MAX
    }

    /// A buffer with these settings before any packet.
    pub open spec fn empty(config: JitterConfig) -> JitterModel {
        JitterModel {
            config,
            packets: Seq::empty(),
            next_sequence: None,
            last_played: None,
            stats: no_stats(),
            last_arrival: None,
            last_timestamp: None,
            current_delay_ms: config.target_delay_ms,
            playout_started: false,
            initial_buffering_done: false,
            nacks: Seq::empty(),
            consecutive_miss: 0,
            pop_count: 0,
            drift_high: 0,
            drift_low: 0,
            drift_check: 0,
        }
    }

    /// A sequence number that was played, or lies before one that was.
    pub open spec fn too_late(self, k: u16) -> bool {
        self.last_played matches Some(l) && (seq_before(k, l) || k == l)
    }

    /// One more packet received.
    pub open spec fn received(self) -> JitterModel {
        JitterModel {
            stats: JitterStats {
                packets_received: (self.stats.packets_received + 1) as u64,
                ..self.stats
            },
            ..self
        }
    }

    /// One more packet dropped.
    pub open spec fn dropped(self) -> JitterModel {
        JitterModel {
            stats: JitterStats {
                packets_dropped: (self.stats.packets_dropped + 1) as u64,
                ..self.stats
            },
            ..self
        }
    }

    /// The size counter set to the number of packets.
    pub open spec fn sized(self) -> JitterModel {
        JitterModel {
            stats: JitterStats { buffer_size: self.packets.len() as usize, ..self.stats },
            ..self
        }
    }

    /// The packets without one.
    pub open spec fn removed(self, k: u16) -> JitterModel {
        JitterModel { packets: without(self.packets, k), ..self }
    }

    /// A timestamp more than five seconds from the last.
    pub open spec fn jumped(self, ts: u32) -> bool {
        &&& self.last_arrival is Some
        &&& self.last_timestamp matches Some(t)
        &&& magnitude(timestamp_delta(ts, t)) > self.config.sample_rate * 5
    }

    /// The buffer after a jump: empty but for the packet.
    pub open spec fn restarted(self, p: PacketModel, now: u64) -> JitterModel {
        JitterModel {
            packets: seq![p],
            next_sequence: Some(seq_plus(key(p), 1)),
            last_arrival: Some(now),
            last_timestamp: Some(p.header.timestamp),
            ..JitterModel::empty(self.config).received()
        }.sized()
    }

    /// By how many milliseconds the time between packets differs from the time
    /// between their timestamps.
    pub open spec fn deviation(self, ts: u32, now: u64) -> int {
        let arrived = if now >= self.last_arrival->0 {
            (now - self.last_arrival->0) / 1_000_000
        } else {
            0
        };
        let stamped = toward_zero(
            timestamp_delta(ts, self.last_timestamp->0) * 1000,
            self.config.sample_rate as int,
        );
        magnitude(arrived - stamped)
    }

    /// The times by which the next packet is judged: those of the latest
    /// timestamp.
    pub open spec fn timed(self, ts: u32, now: u64) -> JitterModel {
        if self.last_arrival is Some && self.last_timestamp is Some && timestamp_delta(
            ts,
            self.last_timestamp->0,
        ) < 0 {
            self
        } else {
            JitterModel { last_arrival: Some(now), last_timestamp: Some(ts), ..self }
        }
    }

    /// A packet before the expected one counts as reordered.
    pub open spec fn order_noted(self, k: u16) -> JitterModel {
        if self.next_sequence matches Some(e) && seq_before(k, e) {
            JitterModel {
                stats: JitterStats {
                    packets_reordered: (self.stats.packets_reordered + 1) as u64,
                    ..self.stats
                },
                ..self
            }
        } else {
            self
        }
    }

    /// One more retransmission to ask for; the list keeps the last 500.
    pub open spec fn nack_added(self, k: u16) -> JitterModel {
        let kept = if self.nacks.len() >= 500 {
            self.nacks.subrange(1, self.nacks.len() as int)
        } else {
            self.nacks
        };
        JitterModel {
            nacks: kept.push(k),
            stats: JitterStats {
                nack_requests: (self.stats.nack_requests + 1) as u64,
                ..self.stats
            },
            ..self
        }
    }

    /// Retransmissions to ask for among the `n` numbers from `e` on.
    pub open spec fn nacks_from(self, e: u16, n: nat) -> JitterModel
        decreases n,
    {
        if n == 0 {
            self
        } else {
            let m = self.nacks_from(e, (n - 1) as nat);
            let k = seq_plus(e, n - 1);
            if holds(self.packets, k) {
                m
            } else {
                m.nack_added(k)
            }
        }
    }

    /// A gap of at most 100 before the packet is asked for again.
    pub open spec fn gap_noted(self, k: u16) -> JitterModel {
        if self.config.nack_enabled && self.next_sequence is Some {
            let e = self.next_sequence->0;
            let gap = (k - e) % 0x1_0000;
            if seq_before(e, k) && gap <= 100 {
                self.nacks_from(e, gap as nat)
            } else {
                self
            }
        } else {
            self
        }
    }

    /// The oldest packets dropped until no more than the most remain.
    pub open spec fn evicted(self) -> JitterModel
        decreases self.packets.len(),
    {
        if self.packets.len() > self.config.max_packets && without(
            self.packets,
            oldest(self.packets),
        ).len() < self.packets.len() {
            self.removed(oldest(self.packets)).dropped().evicted()
        } else {
            self
        }
    }

    /// Playout may begin once the buffer holds as much as the delay.
    pub open spec fn buffering_checked(self) -> JitterModel {
        let enough = if self.current_delay_ms < self.config.target_delay_ms {
            self.current_delay_ms
        } else {
            self.config.target_delay_ms
        };
        JitterModel {
            initial_buffering_done: self.initial_buffering_done || self.config.duration_ms(
                self.packets.len(),
            ) >= enough,
            ..self
        }
    }

    /// A packet that the buffer does not hold, put in its place.
    pub open spec fn stored(self, p: PacketModel) -> JitterModel {
        let k = key(p);
        let expects = if self.next_sequence matches Some(e) && seq_before(k, e) {
            self.next_sequence
        } else {
            Some(seq_plus(k, 1))
        };
        JitterModel {
            next_sequence: expects,
            packets: with_packet(self.packets, p),
            ..self
        }.evicted().sized().buffering_checked()
    }

    /// One more duplicate.
    pub open spec fn duplicated(self) -> JitterModel {
        JitterModel {
            stats: JitterStats {
                packets_duplicated: (self.stats.packets_duplicated + 1) as u64,
                ..self.stats
            },
            ..self
        }
    }

    /// A packet that is not too late, taken in.
    pub open spec fn taken(self, p: PacketModel) -> JitterModel {
        let m = self.order_noted(key(p)).gap_noted(key(p));
        if holds(m.packets, key(p)) {
            m.duplicated()
        } else {
            m.stored(p)
        }
    }

    /// State and result of `push`.
    pub open spec fn pushed(self, p: PacketModel, now: u64) -> (JitterModel, JitterStep) {
        let ts = p.header.timestamp;
        let m = self.received();
        if self.too_late(key(p)) {
            (m.dropped(), JitterStep::Unchanged)
        } else if self.jumped(ts) {
            (self.restarted(p, now), JitterStep::Reset)
        } else if self.last_arrival is Some && self.last_timestamp is Some {
            (
                m.timed(ts, now).taken(p),
                JitterStep::Deviation(self.deviation(ts, now) as u64),
            )
        } else {
            (m.timed(ts, now).taken(p), JitterStep::Unchanged)
        }
    }
}

impl JitterModel {
    /// A buffer that holds more than twice the delay gives up its oldest packet.
    pub open spec fn trimmed(self) -> JitterModel {
        if self.initial_buffering_done && self.current_delay_ms > 0 && self.config.duration_ms(
            self.packets.len(),
        ) > self.current_delay_ms * 2 && self.packets.len() > 0 {
            self.removed(oldest(self.packets)).dropped().sized()
        } else {
            self
        }
    }

    /// The packet at `k` taken out and played.
    pub open spec fn played(self, k: u16) -> JitterModel {
        JitterModel { last_played: Some(k), consecutive_miss: 0, ..self.removed(k) }.sized()
    }

    /// The delay that the jitter calls for, within the settings.
    pub open spec fn wanted_delay(self, jitter_target_ms: u32) -> u32 {
        if jitter_target_ms < self.config.min_delay_ms {
            self.config.min_delay_ms
        } else if jitter_target_ms > self.config.max_delay_ms {
            self.config.max_delay_ms
        } else {
            jitter_target_ms
        }
    }

    /// The delay moved by five milliseconds where the buffer is more than one
    /// packet away from the delay that the jitter calls for.
    pub open spec fn adapted(self, jitter_target_ms: u32) -> JitterModel {
        let level = self.config.duration_ms(self.packets.len());
        let wanted = self.wanted_delay(jitter_target_ms);
        let band = if self.config.packet_ms() >= 1 {
            self.config.packet_ms()
        } else {
            1
        };
        let delay = if level < wanted - band {
            if self.current_delay_ms + 5 < self.config.max_delay_ms {
                self.current_delay_ms + 5
            } else {
                self.config.max_delay_ms as int
            }
        } else if level > wanted + band && wanted + band < u32::MAX {
            if self.current_delay_ms - 5 > self.config.min_delay_ms {
                self.current_delay_ms - 5
            } else {
                self.config.min_delay_ms as int
            }
        } else {
            self.current_delay_ms as int
        };
        JitterModel {
            current_delay_ms: delay as u32,
            stats: JitterStats { buffer_delay_ms: delay as u32, ..self.stats },
            ..self
        }
    }

    /// The delay adapted at every 250th packet.
    pub open spec fn batch_adapted(self, jitter_target_ms: u32) -> JitterModel {
        if self.pop_count >= 250 {
            JitterModel { pop_count: 0, ..self }.adapted(jitter_target_ms)
        } else {
            self
        }
    }

    /// The packets that the starting delay amounts to.
    pub open spec fn target_packets(self) -> int {
        self.config.target_delay_ms as int / if self.config.packet_ms() >= 1 {
            self.config.packet_ms()
        } else {
            1
        }
    }

    /// The packet after the last one played is passed over.
    pub open spec fn passed_over(self) -> JitterModel {
        let k = seq_plus(self.last_played->0, 1);
        let m = if holds(self.packets, k) {
            self.removed(k).dropped().sized()
        } else {
            self
        };
        JitterModel { last_played: Some(k), ..m }
    }

    /// At every 500th pop the fill is looked at: the third time in a row that it
    /// is too high, a packet is passed over.
    pub open spec fn drift_checked(self) -> JitterModel {
        let fill = self.packets.len() as int;
        let target = self.target_packets();
        if self.drift_check % 500 != 0 || self.drift_check == 0 {
            self
        } else if fill > target + 2 {
            if self.drift_high + 1 >= 3 {
                JitterModel { drift_high: 0, drift_low: 0, ..self }.passed_over()
            } else {
                JitterModel { drift_high: (self.drift_high + 1) as u32, drift_low: 0, ..self }
            }
        } else if fill < target - 2 && target > 2 {
            JitterModel {
                drift_high: 0,
                drift_low: if self.drift_low + 1 >= 3 {
                    0
                } else {
                    (self.drift_low + 1) as u32
                },
                ..self
            }
        } else {
            JitterModel { drift_high: 0, drift_low: 0, ..self }
        }
    }

    /// The packet at `target` given up; a buffer more than half full goes on to
    /// its oldest packet, and what lies between counts as lost.
    pub open spec fn lost(self, target: u16) -> (JitterModel, Option<PacketModel>) {
        let m = JitterModel {
            consecutive_miss: 0,
            last_played: Some(target),
            stats: JitterStats {
                packets_lost: (self.stats.packets_lost + 1) as u64,
                ..self.stats
            },
            ..self
        };
        if m.packets.len() > m.config.max_packets / 2 {
            let k = oldest(m.packets);
            let skipped = (k - target - 1) % 0x1_0000;
            (
                JitterModel {
                    last_played: Some(k),
                    stats: JitterStats {
                        packets_lost: (m.stats.packets_lost + if skipped < 0x8000 {
                            skipped
                        } else {
                            0
                        }) as u64,
                        ..m.stats
                    },
                    ..m.removed(k)
                }.sized(),
                Some(m.packets[slot(m.packets, k)]),
            )
        } else {
            (m, None)
        }
    }

    /// The next packet to play after `target` was chosen.
    pub open spec fn popped_at(self, target: u16, jitter_target_ms: u32) -> (
        JitterModel,
        Option<PacketModel>,
    ) {
        if holds(self.packets, target) {
            (
                self.played(target).batch_adapted(jitter_target_ms).drift_checked(),
                Some(self.packets[slot(self.packets, target)]),
            )
        } else if self.initial_buffering_done && self.config.duration_ms(self.packets.len())
            < self.current_delay_ms / 2 {
            (self, None)
        } else if self.consecutive_miss + 1 < self.config.max_wait_before_loss {
            (JitterModel { consecutive_miss: (self.consecutive_miss + 1) as u32, ..self }, None)
        } else {
            self.lost(target)
        }
    }

    /// State and result of `pop`.
    pub open spec fn popped(self, jitter_target_ms: u32) -> (JitterModel, Option<PacketModel>) {
        if !self.initial_buffering_done && !self.playout_started {
            (self, None)
        } else {
            let m = JitterModel {
                playout_started: true,
                pop_count: (self.pop_count + 1) as u32,
                drift_check: (self.drift_check + 1) as u32,
                ..self
            }.trimmed();
            match m.last_played {
                Some(l) => m.popped_at(seq_plus(l, 1), jitter_target_ms),
                None => if m.packets.len() == 0 {
                    (m, None)
                } else {
                    m.popped_at(oldest(m.packets), jitter_target_ms)
                },
            }
        }
    }

    /// The counters are far enough from their limits to play all packets.
    pub open spec fn has_room_to_drain(self) -> bool {
        &&& self.has_room()
        &&& self.stats.packets_lost <= u64::MAX - 0x10_0000_0000
        &&& self.stats.packets_dropped <= u64::MAX - 0x10_0000_0000
        &&& self.pop_count <= u32::MAX - 0x2_0000
        &&& self.drift_check <= u32::MAX - 0x2_0000
    }

    /// State and result of `drain`: packets are popped until none comes.
    pub open spec fn drained(self, jitter_target_ms: u32) -> (JitterModel, Seq<PacketModel>)
        decreases self.packets.len(),
    {
        let (m, r) = self.popped(jitter_target_ms);
        match r {
            None => (m, Seq::empty()),
            Some(p) => if m.packets.len() < self.packets.len() {
                let (end, rest) = m.drained(jitter_target_ms);
                (end, seq![p] + rest)
            } else {
                (m, seq![p])
            },
        }
    }

    /// A retransmission still worth asking for: not arrived, and not too late.
    pub open spec fn nack_wanted(self, k: u16) -> bool {
        !holds(self.packets, k) && !self.too_late(k)
    }
}

// ---------------------------------------------------------------------------
// Redundancy
// ---------------------------------------------------------------------------

/// The header of a redundant block: what it holds, how much earlier it was
/// sampled, and its length.
#[derive(Debug, Clone, Copy)]
pub struct RedBlock {
    pub payload_type: u8,
    pub timestamp_offset: u32,
    pub len: usize,
}

/// The block header at `off`.
pub open spec fn red_block(d: Seq<u8>, off: int) -> RedBlock {
    RedBlock {
        payload_type: (d[off] % 128) as u8,
        timestamp_offset: (d[off + 1] * 64 + d[off + 2] / 4) as u32,
        len: ((d[off + 2] % 4) * 256 + d[off + 3]) as usize,
    }
}

/// The headers of the redundant blocks from `off` on, and where the data
/// begins. The first header without its top bit set is the primary block's and
/// the last. A header that is cut short makes the payload malformed.
pub open spec fn red_headers(d: Seq<u8>, off: int) -> Option<(Seq<RedBlock>, int)>
    decreases d.len() - off,
{
    if off >= d.len() {
        Some((Seq::empty(), off))
    } else if d[off] < 128 {
        Some((Seq::empty(), off + 1))
    } else if off + 4 > d.len() {
        None
    } else {
        match red_headers(d, off + 4) {
            None => None,
            Some((rest, start)) => Some((seq![red_block(d, off)] + rest, start)),
        }
    }
}

/// The bytes of the first `n` blocks.
pub open spec fn red_len(blocks: Seq<RedBlock>, n: nat) -> nat
    decreases n,
{
    if n == 0 {
        0
    } else {
        red_len(blocks, (n - 1) as nat) + blocks[n - 1].len as nat
    }
}

impl JitterModel {
    /// The packet that a redundant block stands for: as the carrier, but with
    /// the block's type, time and data, and the sequence number that its time
    /// amounts to.
    pub open spec fn red_packet(self, carrier: PacketModel, b: RedBlock, data: Seq<u8>)
        -> PacketModel {
        let back = b.timestamp_offset as int / self.config.samples_per_packet as int;
        PacketModel {
            header: HeaderModel {
                sequence_number: seq_plus(carrier.header.sequence_number, -back - 1),
                timestamp: ((carrier.header.timestamp - b.timestamp_offset) % 0x1_0000_0000) as u32,
                payload_type: b.payload_type,
                marker: false,
                ..carrier.header
            },
            payload: data,
        }
    }

    /// A block whose data starts at `start`, taken in where it is whole and
    /// fills a gap.
    pub open spec fn block_recovered(self, carrier: PacketModel, b: RedBlock, start: int)
        -> JitterModel {
        let end = start + b.len;
        if end > carrier.payload.len() || self.config.samples_per_packet == 0 {
            self
        } else {
            let p = self.red_packet(carrier, b, carrier.payload.subrange(start, end));
            if self.too_late(key(p)) || holds(self.packets, key(p)) {
                self
            } else {
                JitterModel {
                    packets: with_packet(self.packets, p),
                    stats: JitterStats {
                        nack_recovered: (self.stats.nack_recovered + 1) as u64,
                        ..self.stats
                    },
                    ..self
                }
            }
        }
    }

    /// The first `n` blocks taken in, one after the other.
    pub open spec fn blocks_recovered(
        self,
        carrier: PacketModel,
        blocks: Seq<RedBlock>,
        data_start: int,
        n: nat,
    ) -> JitterModel
        decreases n,
    {
        if n == 0 {
            self
        } else {
            let m = self.blocks_recovered(carrier, blocks, data_start, (n - 1) as nat);
            m.block_recovered(
                carrier,
                blocks[n - 1],
                data_start + red_len(blocks, (n - 1) as nat),
            )
        }
    }

    /// State after `process_redundancy`.
    pub open spec fn recovered(self, carrier: PacketModel) -> JitterModel {
        match red_headers(carrier.payload, 0) {
            None => self,
            Some((blocks, start)) => self.blocks_recovered(carrier, blocks, start, blocks.len()),
        }
    }
}

// ---------------------------------------------------------------------------
// Laws
// ---------------------------------------------------------------------------

/// A packet that is popped was in the buffer, is not there any more, and is
/// dropped when it comes again.
pub proof fn law_played_once(m: JitterModel, jitter_target_ms: u32, now: u64)
    requires
        m.wf(),
        m.has_room(),
        m.popped(jitter_target_ms).1 is Some,
    ensures
        ({
            let (after, r) = m.popped(jitter_target_ms);
            let p = r->0;
            &&& m.packets.contains(p)
            &&& after.too_late(key(p))
            &&& after.pushed(p, now) == (after.received().dropped(), JitterStep::Unchanged)
        }),
{
    let started = JitterModel {
        playout_started: true,
        pop_count: (m.pop_count + 1) as u32,
        drift_check: (m.drift_check + 1) as u32,
        ..m
    };
    let t = started.trimmed();
    lemma_trimmed(started);
    let target = match t.last_played {
        Some(l) => seq_plus(l, 1),
        None => oldest(t.packets),
    };
    lemma_popped_at(t, target, jitter_target_ms);
    let p = m.popped(jitter_target_ms).1->0;
    let i = choose|i: int| 0 <= i < t.packets.len() && t.packets[i] == p;
    assert(started.packets.contains(t.packets[i]));
}

/// Trimming only takes packets away.
proof fn lemma_trimmed(m: JitterModel)
    requires
        ordered(m.packets),
    ensures
        ordered(m.trimmed().packets),
        forall|i: int|
            0 <= i < m.trimmed().packets.len() ==> m.packets.contains(
                #[trigger] m.trimmed().packets[i],
            ),
{
    let t = m.trimmed();
    let k = oldest(m.packets);
    if m.packets.len() > 0 {
        lemma_ordered(m.packets, m.packets[0], k);
        lemma_slot(m.packets, k);
    }
    assert forall|i: int| 0 <= i < t.packets.len() implies m.packets.contains(
        #[trigger] t.packets[i],
    ) by {
        if t.packets.len() == m.packets.len() || i < slot(m.packets, k) {
            assert(m.packets[i] == t.packets[i]);
        } else {
            assert(m.packets[i + 1] == t.packets[i]);
        }
    }
}

/// What is popped was there, and afterwards counts as played.
proof fn lemma_popped_at(m: JitterModel, target: u16, jitter_target_ms: u32)
    requires
        ordered(m.packets),
        m.popped_at(target, jitter_target_ms).1 is Some,
    ensures
        m.packets.contains(m.popped_at(target, jitter_target_ms).1->0),
        m.popped_at(target, jitter_target_ms).0.too_late(
            key(m.popped_at(target, jitter_target_ms).1->0),
        ),
{
    lemma_slot(m.packets, target);
    if holds(m.packets, target) {
        let played = m.played(target);
        let adapted = played.batch_adapted(jitter_target_ms);
        assert(played.last_played == Some(target));
        assert(adapted.last_played == Some(target));
        let after = adapted.drift_checked();
        assert(after.last_played == Some(target) || after.last_played == Some(seq_plus(target, 1)));
        assert(seq_before(target, seq_plus(target, 1)));
    } else {
        let o = oldest(m.packets);
        lemma_oldest(m.packets);
        lemma_slot(m.packets, o);
    }
}

/// There are no more packets than sequence numbers.
proof fn lemma_ordered_len(s: Seq<PacketModel>)
    requires
        ordered(s),
    ensures
        s.len() <= 0x1_0000,
        forall|i: int| 0 <= i < s.len() ==> key(#[trigger] s[i]) >= i,
    decreases s.len(),
{
    if s.len() > 0 {
        lemma_ordered_len(s.drop_last());
        let n = s.len() as int;
        assert forall|i: int| 0 <= i < s.len() implies key(#[trigger] s[i]) >= i by {
            if i < n - 1 {
                assert(s.drop_last()[i] == s[i]);
            } else if n > 1 {
                assert(s.drop_last()[n - 2] == s[n - 2]);
                assert(key(s[n - 2]) < key(s[n - 1]));
            }
        }
        assert(key(s[n - 1]) >= n - 1);
    }
}

/// A pop takes at least the packet that it gives, and moves the counters by
/// little.
proof fn lemma_pop_step(m: JitterModel, jitter_target_ms: u32)
    requires
        m.wf(),
        m.has_room(),
    ensures
        ({
            let (a, r) = m.popped(jitter_target_ms);
            &&& a.packets.len() <= m.packets.len()
            &&& r is Some ==> a.packets.len() < m.packets.len()
            &&& a.stats.packets_lost <= m.stats.packets_lost + 0x1_0000
            &&& a.stats.packets_dropped <= m.stats.packets_dropped + 2
            &&& a.stats.packets_received == m.stats.packets_received
            &&& a.stats.packets_reordered == m.stats.packets_reordered
            &&& a.stats.packets_duplicated == m.stats.packets_duplicated
            &&& a.stats.nack_requests == m.stats.nack_requests
            &&& a.stats.nack_recovered == m.stats.nack_recovered
            &&& a.pop_count <= m.pop_count + 1
            &&& a.drift_check <= m.drift_check + 1
        }),
{
    let started = JitterModel {
        playout_started: true,
        pop_count: (m.pop_count + 1) as u32,
        drift_check: (m.drift_check + 1) as u32,
        ..m
    };
    let t = started.trimmed();
    lemma_trimmed(started);
    lemma_ordered_len(m.packets);
    if m.packets.len() > 0 {
        lemma_slot(m.packets, oldest(m.packets));
    }
    let target = match t.last_played {
        Some(l) => seq_plus(l, 1),
        None => oldest(t.packets),
    };
    lemma_slot(t.packets, target);
    if t.packets.len() > 0 {
        lemma_oldest(t.packets);
        lemma_slot(t.packets, oldest(t.packets));
    }
    lemma_popped_at_step(t, target, jitter_target_ms);
}

proof fn lemma_popped_at_step(m: JitterModel, target: u16, jitter_target_ms: u32)
    requires
        ordered(m.packets),
        m.stats.packets_lost <= u64::MAX - 0x1_0000,
        m.stats.packets_dropped < u64::MAX,
    ensures
        ({
            let (a, r) = m.popped_at(target, jitter_target_ms);
            &&& a.packets.len() <= m.packets.len()
            &&& r is Some ==> a.packets.len() < m.packets.len()
            &&& a.stats.packets_lost <= m.stats.packets_lost + 0x1_0000
            &&& a.stats.packets_dropped <= m.stats.packets_dropped + 1
            &&& a.stats.packets_received == m.stats.packets_received
            &&& a.stats.packets_reordered == m.stats.packets_reordered
            &&& a.stats.packets_duplicated == m.stats.packets_duplicated
            &&& a.stats.nack_requests == m.stats.nack_requests
            &&& a.stats.nack_recovered == m.stats.nack_recovered
            &&& a.pop_count <= m.pop_count
            &&& a.drift_check == m.drift_check
        }),
{
    lemma_slot(m.packets, target);
    if holds(m.packets, target) {
        let b = m.played(target);
        let c = b.batch_adapted(jitter_target_ms);
        assert(b.packets.len() < m.packets.len());
        assert(c.packets == b.packets);
        lemma_slot(c.packets, seq_plus(target, 1));
        let d = c.drift_checked();
        assert(d.packets.len() <= c.packets.len());
    } else if m.packets.len() > 0 {
        lemma_oldest(m.packets);
        lemma_slot(m.packets, oldest(m.packets));
    }
}

/// While the packet that comes next is in the buffer and the buffer is not
/// overfull, that packet is what is popped.
pub proof fn law_pops_next(m: JitterModel, jitter_target_ms: u32)
    requires
        m.wf(),
        m.initial_buffering_done || m.playout_started,
        m.last_played is Some,
        holds(m.packets, seq_plus(m.last_played->0, 1)),
        m.config.duration_ms(m.packets.len()) <= m.current_delay_ms * 2,
    ensures
        ({
            let r = m.popped(jitter_target_ms).1;
            r is Some && key(r->0) == seq_plus(m.last_played->0, 1)
        }),
{
}

impl JitterModel {
    /// All packets come after `b`, less than half the range of sequence numbers
    /// away, and the last one played, if there is one, is `b`.
    pub open spec fn follows(self, b: u16) -> bool {
        &&& self.last_played is Some ==> self.last_played == Some(b)
        &&& forall|i: int| 0 <= i < self.packets.len() ==> seq_before(b, key(#[trigger] self.packets[i]))
    }
}

/// Packets are played in the order of their sequence numbers: what is popped
/// comes after what was played before it, and before all that remains.
pub proof fn law_plays_in_order(m: JitterModel, b: u16, jitter_target_ms: u32)
    requires
        m.wf(),
        m.follows(b),
    ensures
        ({
            let (after, r) = m.popped(jitter_target_ms);
            &&& after.follows(
                match after.last_played {
                    Some(l) => l,
                    None => b,
                },
            )
            &&& r is Some ==> seq_before(b, key(r->0))
            &&& r is Some ==> forall|i: int|
                0 <= i < after.packets.len() ==> seq_before(
                    key(r->0),
                    key(#[trigger] after.packets[i]),
                )
        }),
{
    lemma_pop_in_order(m, b, jitter_target_ms);
}

/// What is drained comes in the order of sequence numbers, each packet once.
pub proof fn law_drains_in_order(m: JitterModel, b: u16, jitter_target_ms: u32)
    requires
        m.wf(),
        m.follows(b),
    ensures
        ({
            let out = m.drained(jitter_target_ms).1;
            &&& forall|i: int| 0 <= i < out.len() ==> m.packets.contains(#[trigger] out[i])
            &&& forall|i: int, j: int|
                0 <= i < j < out.len() ==> seq_before(
                    key(#[trigger] out[i]),
                    key(#[trigger] out[j]),
                )
        }),
{
    lemma_drain_in_order(m, b, jitter_target_ms);
}

/// Pushing a packet, in or out of order, leaves every packet after the last one
/// played. Left out are a packet half the range away, which is neither before
/// nor after, and one whose timestamp starts the buffer over.
pub proof fn law_push_keeps_order(m: JitterModel, b: u16, p: PacketModel, now: u64)
    requires
        m.wf(),
        m.follows(b),
        m.too_late(key(p)) || seq_before(b, key(p)),
        m.too_late(key(p)) || !m.jumped(p.header.timestamp),
    ensures
        m.pushed(p, now).0.follows(b),
{
    lemma_push_in_order(m, b, p, now);
}

/// A buffer that was started over plays from its one packet on.
pub proof fn law_restart_follows(m: JitterModel, p: PacketModel, now: u64)
    requires
        m.wf(),
        !m.too_late(key(p)),
        m.jumped(p.header.timestamp),
    ensures
        m.pushed(p, now).0.follows(seq_plus(key(p), -1)),
{
}

/// A push that left `after` added at most the packet, and went on with playout.
spec fn pushed_in_order(m: JitterModel, p: PacketModel, after: JitterModel) -> bool {
    &&& ordered(after.packets)
    &&& forall|i: int|
        0 <= i < after.packets.len() ==> (#[trigger] after.packets[i]) == p || m.packets.contains(
            after.packets[i],
        )
    &&& after.last_played == m.last_played
    &&& after.playout_started == m.playout_started
    &&& m.initial_buffering_done ==> after.initial_buffering_done
    &&& after.current_delay_ms == m.current_delay_ms
    &&& after.config == m.config
}

proof fn lemma_push_in_order(m: JitterModel, b: u16, p: PacketModel, now: u64)
    requires
        ordered(m.packets),
        m.follows(b),
        m.too_late(key(p)) || seq_before(b, key(p)),
        m.too_late(key(p)) || !m.jumped(p.header.timestamp),
    ensures
        pushed_in_order(m, p, m.pushed(p, now).0),
        m.pushed(p, now).0.follows(b),
{
    let t = m.received().timed(p.header.timestamp, now).order_noted(key(p));
    let noted = t.gap_noted(key(p));
    lemma_gap_keeps(t, key(p));
    let after = m.pushed(p, now).0;
    if m.too_late(key(p)) || holds(noted.packets, key(p)) {
        assert(after.packets == m.packets);
        assert forall|i: int| 0 <= i < after.packets.len() implies m.packets.contains(
            #[trigger] after.packets[i],
        ) by {
            assert(m.packets[i] == after.packets[i]);
        }
    } else {
        let s = slot(noted.packets, key(p));
        let expects = if noted.next_sequence matches Some(e) && seq_before(key(p), e) {
            noted.next_sequence
        } else {
            Some(seq_plus(key(p), 1))
        };
        let added = JitterModel {
            next_sequence: expects,
            packets: with_packet(noted.packets, p),
            ..noted
        };
        lemma_slot(noted.packets, key(p));
        lemma_ordered(noted.packets, p, 0);
        lemma_evicted_keeps(added);
        assert forall|i: int| 0 <= i < after.packets.len() implies (#[trigger] after.packets[i])
            == p || m.packets.contains(after.packets[i]) by {
            let j = choose|j: int|
                0 <= j < added.packets.len() && added.packets[j] == after.packets[i];
            if j < s {
                assert(added.packets[j] == m.packets[j]);
            } else if j > s {
                assert(added.packets[j] == m.packets[j - 1]);
            }
        }
    }
    assert forall|i: int| 0 <= i < after.packets.len() implies seq_before(
        b,
        key(#[trigger] after.packets[i]),
    ) by {
        if m.packets.contains(after.packets[i]) {
            let j = choose|j: int| 0 <= j < m.packets.len() && m.packets[j] == after.packets[i];
            assert(seq_before(b, key(m.packets[j])));
        }
    }
}

/// Dropping the oldest packets only takes packets away.
proof fn lemma_evicted_keeps(m: JitterModel)
    requires
        ordered(m.packets),
    ensures
        ordered(m.evicted().packets),
        forall|i: int|
            0 <= i < m.evicted().packets.len() ==> m.packets.contains(
                #[trigger] m.evicted().packets[i],
            ),
        m.evicted().last_played == m.last_played,
        m.evicted().playout_started == m.playout_started,
        m.evicted().initial_buffering_done == m.initial_buffering_done,
        m.evicted().current_delay_ms == m.current_delay_ms,
        m.evicted().config == m.config,
    decreases m.packets.len(),
{
    let k = oldest(m.packets);
    let after = m.evicted();
    if m.packets.len() > m.config.max_packets && without(m.packets, k).len() < m.packets.len() {
        let next = m.removed(k).dropped();
        lemma_without(m.packets, k);
        lemma_evicted_keeps(next);
        assert forall|i: int| 0 <= i < after.packets.len() implies m.packets.contains(
            #[trigger] after.packets[i],
        ) by {
            let j = choose|j: int| 0 <= j < next.packets.len() && next.packets[j]
                == after.packets[i];
            assert(m.packets.contains(without(m.packets, k)[j]));
        }
    } else {
        assert forall|i: int| 0 <= i < after.packets.len() implies m.packets.contains(
            #[trigger] after.packets[i],
        ) by {
            assert(m.packets[i] == after.packets[i]);
        }
    }
}

/// What is left without a number is part of what was there, and does not hold
/// that number.
proof fn lemma_without(s: Seq<PacketModel>, k: u16)
    requires
        ordered(s),
    ensures
        ordered(without(s, k)),
        forall|i: int|
            0 <= i < without(s, k).len() ==> s.contains(#[trigger] without(s, k)[i]) && key(
                without(s, k)[i],
            ) != k,
{
    let t = without(s, k);
    let n = slot(s, k);
    lemma_slot(s, k);
    assert forall|i: int| 0 <= i < t.len() implies s.contains(#[trigger] t[i]) && key(t[i])
        != k by {
        if !holds(s, k) {
            assert(s[i] == t[i]);
        } else if i < n {
            assert(s[i] == t[i]);
        } else {
            assert(s[i + 1] == t[i]);
            assert(key(s[n]) < key(s[i + 1]));
        }
    }
}

/// Of two numbers that follow one, either they are the same or one is before
/// the other.
proof fn lemma_one_first(b: u16, x: u16, y: u16)
    requires
        seq_before(b, x),
        seq_before(b, y),
    ensures
        seq_before(x, y) <==> (x - b) % 0x1_0000 < (y - b) % 0x1_0000,
        x == y <==> (x - b) % 0x1_0000 == (y - b) % 0x1_0000,
{
}

/// What follows a number and is not the next follows the next.
proof fn lemma_after_next(b: u16, x: u16)
    requires
        seq_before(b, x),
        x != seq_plus(b, 1),
    ensures
        seq_before(seq_plus(b, 1), x),
{
}

/// Among numbers that all follow one, the oldest comes before the others.
proof fn lemma_oldest_nearest(s: Seq<PacketModel>, b: u16)
    requires
        s.len() > 0,
        forall|i: int| 0 <= i < s.len() ==> seq_before(b, key(#[trigger] s[i])),
    ensures
        seq_before(b, oldest(s)),
        forall|i: int|
            0 <= i < s.len() ==> key(#[trigger] s[i]) == oldest(s) || seq_before(
                oldest(s),
                key(s[i]),
            ),
    decreases s.len(),
{
    assert(seq_before(b, key(s[s.len() - 1])));
    if s.len() > 1 {
        let t = s.drop_last();
        assert forall|i: int| 0 <= i < t.len() implies seq_before(b, key(#[trigger] t[i])) by {
            assert(t[i] == s[i]);
        }
        lemma_oldest_nearest(t, b);
        let last = key(s.last());
        lemma_one_first(b, last, oldest(t));
        assert forall|i: int| 0 <= i < s.len() implies key(#[trigger] s[i]) == oldest(s)
            || seq_before(oldest(s), key(s[i])) by {
            assert(seq_before(b, key(s[i])));
            lemma_one_first(b, oldest(t), key(s[i]));
            lemma_one_first(b, last, key(s[i]));
            if i < t.len() {
                assert(t[i] == s[i]);
            }
        }
    }
}

/// A pop that left `after` and gave `r` kept the order.
spec fn popped_in_order(
    m: JitterModel,
    b: u16,
    after: JitterModel,
    r: Option<PacketModel>,
) -> bool {
    &&& ordered(after.packets)
    &&& after.follows(
        match after.last_played {
            Some(l) => l,
            None => b,
        },
    )
    &&& forall|i: int|
        0 <= i < after.packets.len() ==> m.packets.contains(#[trigger] after.packets[i])
    &&& r is Some ==> m.packets.contains(r->0) && seq_before(b, key(r->0))
    &&& r is Some ==> forall|i: int|
        0 <= i < after.packets.len() ==> seq_before(key(r->0), key(#[trigger] after.packets[i]))
}

/// The number that playout turns to next.
spec fn next_target(m: JitterModel, b: u16) -> u16 {
    match m.last_played {
        Some(_) => seq_plus(b, 1),
        None => oldest(m.packets),
    }
}

/// Every number but the next one comes after it.
proof fn lemma_target_first(m: JitterModel, b: u16)
    requires
        ordered(m.packets),
        m.follows(b),
        m.last_played is Some || m.packets.len() > 0,
    ensures
        seq_before(b, next_target(m, b)),
        forall|i: int|
            0 <= i < m.packets.len() && key(#[trigger] m.packets[i]) != next_target(m, b)
                ==> seq_before(next_target(m, b), key(m.packets[i])),
{
    if m.last_played is None {
        lemma_oldest_nearest(m.packets, b);
    } else {
        assert forall|i: int|
            0 <= i < m.packets.len() && key(#[trigger] m.packets[i]) != seq_plus(b, 1) implies
            seq_before(seq_plus(b, 1), key(m.packets[i])) by {
            lemma_after_next(b, key(m.packets[i]));
        }
    }
}

proof fn lemma_pop_held_in_order(m: JitterModel, b: u16, jitter_target_ms: u32)
    requires
        ordered(m.packets),
        m.follows(b),
        m.last_played is Some || m.packets.len() > 0,
        holds(m.packets, next_target(m, b)),
    ensures
        ({
            let (after, r) = m.popped_at(next_target(m, b), jitter_target_ms);
            popped_in_order(m, b, after, r)
        }),
{
    let target = next_target(m, b);
    let next = seq_plus(target, 1);
    let (after, r) = m.popped_at(target, jitter_target_ms);
    let c = m.played(target).batch_adapted(jitter_target_ms);
    lemma_target_first(m, b);
    lemma_slot(m.packets, target);
    lemma_without(m.packets, target);
    lemma_without(c.packets, next);
    lemma_slot(c.packets, next);
    assert(m.packets[slot(m.packets, target)] == r->0);
    assert(c.packets == without(m.packets, target));
    assert(c.last_played == Some(target));
    assert(after == c.drift_checked());
    assert((after.packets == c.packets && after.last_played == Some(target)) || (after.packets
        == without(c.packets, next) && after.last_played == Some(next)));
    assert forall|i: int| 0 <= i < c.packets.len() implies seq_before(
        target,
        key(#[trigger] c.packets[i]),
    ) && m.packets.contains(c.packets[i]) by {
        let j = choose|j: int| 0 <= j < m.packets.len() && m.packets[j] == c.packets[i];
        assert(key(m.packets[j]) != target);
    }
    if after.last_played == Some(next) {
        assert forall|i: int| 0 <= i < after.packets.len() implies seq_before(
            target,
            key(#[trigger] after.packets[i]),
        ) && m.packets.contains(after.packets[i]) && seq_before(next, key(after.packets[i])) by {
            let j = choose|j: int| 0 <= j < c.packets.len() && c.packets[j] == after.packets[i];
            assert(seq_before(target, key(c.packets[j])));
            lemma_after_next(target, key(after.packets[i]));
        }
    }
}

proof fn lemma_pop_missing_in_order(m: JitterModel, b: u16, jitter_target_ms: u32)
    requires
        ordered(m.packets),
        m.follows(b),
        m.last_played is Some,
        !holds(m.packets, next_target(m, b)),
    ensures
        ({
            let (after, r) = m.popped_at(next_target(m, b), jitter_target_ms);
            popped_in_order(m, b, after, r)
        }),
{
    let target = next_target(m, b);
    let (after, r) = m.popped_at(target, jitter_target_ms);
    lemma_target_first(m, b);
    lemma_slot(m.packets, target);
    if r is Some {
        let k = oldest(m.packets);
        lemma_oldest(m.packets);
        lemma_oldest_nearest(m.packets, b);
        lemma_slot(m.packets, k);
        lemma_without(m.packets, k);
        assert(m.packets[slot(m.packets, k)] == r->0);
        assert(after.packets == without(m.packets, k));
        assert forall|i: int| 0 <= i < after.packets.len() implies seq_before(
            k,
            key(#[trigger] after.packets[i]),
        ) && m.packets.contains(after.packets[i]) by {
            let j = choose|j: int| 0 <= j < m.packets.len() && m.packets[j] == after.packets[i];
            assert(key(m.packets[j]) != k);
        }
    } else {
        assert(after.packets == m.packets);
    }
}

proof fn lemma_pop_in_order(m: JitterModel, b: u16, jitter_target_ms: u32)
    requires
        ordered(m.packets),
        m.follows(b),
    ensures
        ({
            let (after, r) = m.popped(jitter_target_ms);
            popped_in_order(m, b, after, r)
        }),
{
    if m.initial_buffering_done || m.playout_started {
        let started = JitterModel {
            playout_started: true,
            pop_count: (m.pop_count + 1) as u32,
            drift_check: (m.drift_check + 1) as u32,
            ..m
        };
        let t = started.trimmed();
        lemma_trimmed(started);
        assert forall|i: int| 0 <= i < t.packets.len() implies seq_before(
            b,
            key(#[trigger] t.packets[i]),
        ) by {
            let j = choose|j: int| 0 <= j < m.packets.len() && m.packets[j] == t.packets[i];
            assert(seq_before(b, key(m.packets[j])));
        }
        if t.last_played is None && t.packets.len() > 0 {
            lemma_oldest(t.packets);
        }
        if t.last_played is Some || t.packets.len() > 0 {
            if holds(t.packets, next_target(t, b)) {
                lemma_pop_held_in_order(t, b, jitter_target_ms);
            } else {
                lemma_pop_missing_in_order(t, b, jitter_target_ms);
            }
        }
        let (after, r) = m.popped(jitter_target_ms);
        assert forall|i: int| 0 <= i < after.packets.len() implies m.packets.contains(
            #[trigger] after.packets[i],
        ) by {
            let j = choose|j: int| 0 <= j < t.packets.len() && t.packets[j] == after.packets[i];
            assert(started.packets.contains(t.packets[j]));
        }
        if r is Some {
            let j = choose|j: int| 0 <= j < t.packets.len() && t.packets[j] == r->0;
            assert(started.packets.contains(t.packets[j]));
        }
    } else {
        assert forall|i: int| 0 <= i < m.packets.len() implies m.packets.contains(
            #[trigger] m.packets[i],
        ) by {}
    }
}

proof fn lemma_drain_in_order(m: JitterModel, b: u16, jitter_target_ms: u32)
    requires
        ordered(m.packets),
        m.follows(b),
    ensures
        ({
            let out = m.drained(jitter_target_ms).1;
            &&& forall|i: int| 0 <= i < out.len() ==> m.packets.contains(#[trigger] out[i])
            &&& forall|i: int, j: int|
                0 <= i < j < out.len() ==> seq_before(
                    key(#[trigger] out[i]),
                    key(#[trigger] out[j]),
                )
        }),
    decreases m.packets.len(),
{
    let (after, r) = m.popped(jitter_target_ms);
    let out = m.drained(jitter_target_ms).1;
    lemma_pop_in_order(m, b, jitter_target_ms);
    if r is Some && after.packets.len() < m.packets.len() {
        let base = match after.last_played {
            Some(l) => l,
            None => b,
        };
        let rest = after.drained(jitter_target_ms).1;
        lemma_drain_in_order(after, base, jitter_target_ms);
        assert forall|i: int| 0 <= i < rest.len() implies seq_before(
            key(r->0),
            key(#[trigger] rest[i]),
        ) && m.packets.contains(rest[i]) by {
            let j = choose|j: int| 0 <= j < after.packets.len() && after.packets[j] == rest[i];
            assert(seq_before(key(r->0), key(after.packets[j])));
        }
        assert forall|i: int| 0 <= i < out.len() implies m.packets.contains(#[trigger] out[i]) by {
            if i > 0 {
                assert(out[i] == rest[i - 1]);
            }
        }
        assert forall|i: int, j: int| 0 <= i < j < out.len() implies seq_before(
            key(#[trigger] out[i]),
            key(#[trigger] out[j]),
        ) by {
            assert(out[j] == rest[j - 1]);
            if i > 0 {
                assert(out[i] == rest[i - 1]);
            }
        }
    }
}

/// Where a pop leaves playout.
spec fn pop_moves(m: JitterModel, b: u16, after: JitterModel, r: Option<PacketModel>) -> bool {
    &&& after.initial_buffering_done == m.initial_buffering_done
    &&& after.playout_started ==> m.playout_started || m.initial_buffering_done
    &&& after.last_played is None ==> r is None
    &&& after.last_played matches Some(l) ==> (l - b) % 0x1_0000 <= 0x8000
    &&& r matches Some(p) ==> after.last_played == Some(key(p)) || after.last_played == Some(
        seq_plus(key(p), 1),
    )
}

/// What comes after a number, and the number after that, are at most half the
/// range away.
proof fn lemma_half_range(b: u16, k: u16)
    requires
        seq_before(b, k),
    ensures
        (k - b) % 0x1_0000 <= 0x8000,
        (seq_plus(k, 1) - b) % 0x1_0000 <= 0x8000,
{
}

/// Where a pop at a number that is there leaves playout.
proof fn lemma_held_moves(m: JitterModel, target: u16, jitter_target_ms: u32)
    requires
        holds(m.packets, target),
    ensures
        ({
            let (after, r) = m.popped_at(target, jitter_target_ms);
            &&& after.initial_buffering_done == m.initial_buffering_done
            &&& after.playout_started == m.playout_started
            &&& after.last_played == Some(target) || after.last_played == Some(seq_plus(target, 1))
            &&& r is Some && key(r->0) == target
        }),
{
    let c = m.played(target).batch_adapted(jitter_target_ms);
    assert(c.last_played == Some(target));
    assert(c.initial_buffering_done == m.initial_buffering_done);
    assert(c.playout_started == m.playout_started);
    assert(m.popped_at(target, jitter_target_ms).0 == c.drift_checked());
}

/// Where a pop at a number that is missing leaves playout.
proof fn lemma_missing_moves(m: JitterModel, target: u16, jitter_target_ms: u32)
    requires
        ordered(m.packets),
        !holds(m.packets, target),
    ensures
        ({
            let (after, r) = m.popped_at(target, jitter_target_ms);
            &&& after.initial_buffering_done == m.initial_buffering_done
            &&& after.playout_started == m.playout_started
            &&& match r {
                Some(p) => m.packets.len() > 0 && key(p) == oldest(m.packets) && after.last_played
                    == Some(key(p)),
                None => after.last_played == m.last_played || after.last_played == Some(target),
            }
        }),
{
    let k = oldest(m.packets);
    if m.packets.len() > 0 {
        lemma_oldest(m.packets);
        lemma_slot(m.packets, k);
    }
}

proof fn lemma_popped_at_moves(m: JitterModel, b: u16, jitter_target_ms: u32)
    requires
        ordered(m.packets),
        m.follows(b),
        m.last_played is Some || (m.packets.len() > 0 && holds(m.packets, next_target(m, b))),
    ensures
        ({
            let (after, r) = m.popped_at(next_target(m, b), jitter_target_ms);
            pop_moves(m, b, after, r)
        }),
{
    let target = next_target(m, b);
    lemma_target_first(m, b);
    lemma_half_range(b, target);
    if holds(m.packets, target) {
        lemma_held_moves(m, target, jitter_target_ms);
    } else {
        lemma_missing_moves(m, target, jitter_target_ms);
        if m.packets.len() > 0 {
            lemma_oldest_nearest(m.packets, b);
            lemma_half_range(b, oldest(m.packets));
        }
    }
}

proof fn lemma_pop_moves(m: JitterModel, b: u16, jitter_target_ms: u32)
    requires
        ordered(m.packets),
        m.follows(b),
    ensures
        ({
            let (after, r) = m.popped(jitter_target_ms);
            pop_moves(m, b, after, r)
        }),
{
    if m.initial_buffering_done || m.playout_started {
        let started = JitterModel {
            playout_started: true,
            pop_count: (m.pop_count + 1) as u32,
            drift_check: (m.drift_check + 1) as u32,
            ..m
        };
        let t = started.trimmed();
        lemma_trimmed(started);
        assert forall|i: int| 0 <= i < t.packets.len() implies seq_before(
            b,
            key(#[trigger] t.packets[i]),
        ) by {
            let j = choose|j: int| 0 <= j < m.packets.len() && m.packets[j] == t.packets[i];
            assert(seq_before(b, key(m.packets[j])));
        }
        if t.last_played is None && t.packets.len() > 0 {
            lemma_oldest(t.packets);
        }
        if t.last_played is Some || t.packets.len() > 0 {
            lemma_popped_at_moves(t, b, jitter_target_ms);
        }
    }
}

/// What is done to a buffer: a packet, which has its place in the stream, is
/// pushed, or a packet is asked for. Places do not wrap: a packet's sequence
/// number is what its place leaves modulo the range.
pub enum JitterOp {
    Push { packet: PacketModel, place: int, now: u64 },
    Pop { jitter_target_ms: u32 },
}

impl JitterOp {
    /// The packet is pushed, and has this place.
    pub open spec fn pushes(self, p: PacketModel, at: int) -> bool {
        self matches JitterOp::Push { packet, place, .. } && packet == p && place == at
    }
}

/// A packet was pushed at this place.
pub open spec fn was_pushed(ops: Seq<JitterOp>, p: PacketModel, at: int) -> bool {
    exists|n: int| 0 <= n < ops.len() && (#[trigger] ops[n]).pushes(p, at)
}

/// A buffer at work: the place in the stream up to which it has played, and
/// the packets that it gave, with their places.
pub struct JitterRun {
    pub buffer: JitterModel,
    pub position: int,
    pub played: Seq<PacketModel>,
    pub places: Seq<int>,
}

impl JitterRun {
    /// A new buffer, for a stream that begins after a place.
    pub open spec fn start(config: JitterConfig, position: int) -> JitterRun {
        JitterRun {
            buffer: JitterModel::empty(config),
            position,
            played: Seq::empty(),
            places: Seq::empty(),
        }
    }

    /// The first place from the position on that has a sequence number.
    pub open spec fn place_of(self, k: u16) -> int {
        self.position + (k - self.position) % 0x1_0000
    }

    /// After one operation.
    pub open spec fn stepped(self, op: JitterOp) -> JitterRun {
        match op {
            JitterOp::Push { packet, now, .. } => JitterRun {
                buffer: self.buffer.pushed(packet, now).0,
                ..self
            },
            JitterOp::Pop { jitter_target_ms } => {
                let (m, r) = self.buffer.popped(jitter_target_ms);
                JitterRun {
                    buffer: m,
                    position: match m.last_played {
                        Some(l) => self.place_of(l),
                        None => self.position,
                    },
                    played: match r {
                        Some(p) => self.played.push(p),
                        None => self.played,
                    },
                    places: match r {
                        Some(p) => self.places.push(self.place_of(key(p))),
                        None => self.places,
                    },
                }
            },
        }
    }

    /// After operations, one by one.
    pub open spec fn run(self, ops: Seq<JitterOp>) -> JitterRun
        decreases ops.len(),
    {
        if ops.len() == 0 {
            self
        } else {
            self.run(ops.drop_last()).stepped(ops.last())
        }
    }

    /// What is pushed lies less than half the range from the position; unless
    /// something was played since the buffer started, it lies after it.
    pub open spec fn admits(self, op: JitterOp) -> bool {
        op matches JitterOp::Push { packet, place, .. } ==> {
            &&& key(packet) == place % 0x1_0000
            &&& self.position - 0x8000 < place < self.position + 0x8000
            &&& self.buffer.last_played is None ==> self.position < place
        }
    }

    /// Each operation is admitted when its turn comes.
    pub open spec fn admits_all(self, ops: Seq<JitterOp>) -> bool
        decreases ops.len(),
    {
        ops.len() == 0 || (self.admits_all(ops.drop_last()) && self.run(ops.drop_last()).admits(
            ops.last(),
        ))
    }
}

/// Whatever is pushed and popped, in whatever order, with losses, rollovers and
/// restarts: what the buffer gives are packets that were pushed, unaltered and
/// in the order of their places in the stream, none twice, so that of two less
/// than half the range apart the one that comes first has the earlier sequence
/// number. It gives none as long as it has not filled.
pub proof fn law_run_plays_in_order(config: JitterConfig, position: int, ops: Seq<JitterOp>)
    requires
        JitterRun::start(config, position).admits_all(ops),
    ensures
        ({
            let end = JitterRun::start(config, position).run(ops);
            &&& end.played.len() == end.places.len()
            &&& forall|i: int|
                0 <= i < end.played.len() ==> was_pushed(
                    ops,
                    #[trigger] end.played[i],
                    end.places[i],
                )
            &&& forall|i: int, j: int|
                0 <= i < j < end.places.len() ==> #[trigger] end.places[i]
                    < #[trigger] end.places[j]
            &&& forall|i: int, j: int|
                0 <= i < j < end.played.len() && end.places[j] - end.places[i] < 0x8000
                    ==> seq_before(key(#[trigger] end.played[i]), key(#[trigger] end.played[j]))
            &&& forall|jitter_target_ms: u32|
                !end.buffer.initial_buffering_done ==> #[trigger] end.buffer.popped(
                    jitter_target_ms,
                ) == (end.buffer, None::<PacketModel>)
        }),
{
    lemma_run(config, position, ops);
    let end = JitterRun::start(config, position).run(ops);
    assert forall|i: int, j: int|
        0 <= i < j < end.played.len() && end.places[j] - end.places[i] < 0x8000 implies seq_before(
        key(#[trigger] end.played[i]),
        key(#[trigger] end.played[j]),
    ) by {
        assert(end.places[i] < end.places[j]);
        lemma_places_apart(
            end.places[i],
            end.places[j],
            key(end.played[i]),
            key(end.played[j]),
        );
    }
    assert(end.buffer.playout_started ==> end.buffer.initial_buffering_done);
}

/// Sequence numbers are in the order of places that are near.
proof fn lemma_places_apart(first: int, second: int, x: u16, y: u16)
    requires
        first < second < first + 0x8000,
        x == first % 0x1_0000,
        y == second % 0x1_0000,
    ensures
        seq_before(x, y),
{
    lemma_remainder(first, x, second);
}

/// What holds throughout a run.
spec fn run_inv(r: JitterRun, ops: Seq<JitterOp>) -> bool {
    let b = (r.position % 0x1_0000) as u16;
    &&& ordered(r.buffer.packets)
    &&& r.buffer.follows(b)
    &&& forall|i: int|
        0 <= i < r.buffer.packets.len() ==> was_pushed(
            ops,
            #[trigger] r.buffer.packets[i],
            r.place_of(key(r.buffer.packets[i])),
        )
    &&& r.buffer.playout_started ==> r.buffer.initial_buffering_done
    &&& r.played.len() == r.places.len()
    &&& forall|i: int|
        0 <= i < r.played.len() ==> was_pushed(ops, #[trigger] r.played[i], r.places[i])
            && r.places[i] % 0x1_0000 == key(r.played[i])
    &&& forall|i: int| 0 <= i < r.places.len() ==> #[trigger] r.places[i] <= r.position
    &&& forall|i: int, j: int|
        0 <= i < j < r.places.len() ==> #[trigger] r.places[i] < #[trigger] r.places[j]
}

proof fn lemma_run(config: JitterConfig, position: int, ops: Seq<JitterOp>)
    requires
        JitterRun::start(config, position).admits_all(ops),
    ensures
        run_inv(JitterRun::start(config, position).run(ops), ops),
    decreases ops.len(),
{
    if ops.len() > 0 {
        let before = JitterRun::start(config, position).run(ops.drop_last());
        lemma_run(config, position, ops.drop_last());
        match ops.last() {
            JitterOp::Push { packet, place, now } => {
                lemma_run_push(before, ops, packet, place, now);
            },
            JitterOp::Pop { jitter_target_ms } => {
                lemma_run_pop(before, ops, jitter_target_ms);
            },
        }
    }
}

/// What was pushed stays pushed.
proof fn lemma_was_pushed(ops: Seq<JitterOp>, p: PacketModel, at: int)
    requires
        ops.len() > 0,
        was_pushed(ops.drop_last(), p, at),
    ensures
        was_pushed(ops, p, at),
{
    let before = ops.drop_last();
    let n = choose|n: int| 0 <= n < before.len() && (#[trigger] before[n]).pushes(p, at);
    assert(ops[n] == before[n]);
}

/// How far a sequence number lies after a position.
proof fn lemma_offset(position: int, b: u16, k: u16)
    requires
        b == position % 0x1_0000,
    ensures
        (k - position) % 0x1_0000 == (k - b) % 0x1_0000,
        (k - b) % 0x1_0000 == if k >= b {
            k - b
        } else {
            k - b + 0x1_0000
        },
{
    let q = position / 0x1_0000;
    assert(position == 0x1_0000 * q + b);
    vstd::arithmetic::div_mod::lemma_mod_multiples_vanish(-q, k - b, 0x1_0000);
}

/// What a place that is less than one range away leaves.
proof fn lemma_remainder(position: int, b: u16, place: int)
    requires
        b == position % 0x1_0000,
        position - 0x1_0000 < place < position + 0x1_0000,
    ensures
        place % 0x1_0000 == if b + (place - position) < 0 {
            b + (place - position) + 0x1_0000
        } else if b + (place - position) >= 0x1_0000 {
            b + (place - position) - 0x1_0000
        } else {
            b + (place - position)
        },
{
    let q = position / 0x1_0000;
    assert(position == 0x1_0000 * q + b);
    vstd::arithmetic::div_mod::lemma_mod_multiples_vanish(q, b + (place - position), 0x1_0000);
}

/// A sequence number is where its place puts it.
proof fn lemma_place(position: int, place: int, b: u16, k: u16)
    requires
        b == position % 0x1_0000,
        k == place % 0x1_0000,
        position - 0x8000 < place < position + 0x8000,
    ensures
        position < place ==> seq_before(b, k) && position + (k - position) % 0x1_0000 == place,
        place <= position ==> seq_before(k, b) || k == b,
{
    lemma_remainder(position, b, place);
    lemma_offset(position, b, k);
}

proof fn lemma_run_push(
    r: JitterRun,
    ops: Seq<JitterOp>,
    packet: PacketModel,
    place: int,
    now: u64,
)
    requires
        ops.len() > 0,
        ops.last() == (JitterOp::Push { packet, place, now }),
        run_inv(r, ops.drop_last()),
        r.admits(ops.last()),
    ensures
        run_inv(r.stepped(ops.last()), ops),
{
    let b = (r.position % 0x1_0000) as u16;
    let k = key(packet);
    let after = r.stepped(ops.last());
    lemma_place(r.position, place, b, k);
    assert(ops[ops.len() - 1] == ops.last());
    assert(was_pushed(ops, packet, place));
    assert forall|i: int| 0 <= i < r.buffer.packets.len() implies was_pushed(
        ops,
        #[trigger] r.buffer.packets[i],
        r.place_of(key(r.buffer.packets[i])),
    ) by {
        lemma_was_pushed(ops, r.buffer.packets[i], r.place_of(key(r.buffer.packets[i])));
    }
    assert forall|i: int| 0 <= i < r.played.len() implies was_pushed(
        ops,
        #[trigger] r.played[i],
        r.places[i],
    ) by {
        lemma_was_pushed(ops, r.played[i], r.places[i]);
    }
    if r.buffer.too_late(k) || !r.buffer.jumped(packet.header.timestamp) {
        lemma_push_in_order(r.buffer, b, packet, now);
        assert forall|i: int| 0 <= i < after.buffer.packets.len() implies was_pushed(
            ops,
            #[trigger] after.buffer.packets[i],
            after.place_of(key(after.buffer.packets[i])),
        ) by {
            let p = after.buffer.packets[i];
            if r.buffer.packets.contains(p) {
                let j = choose|j: int| 0 <= j < r.buffer.packets.len() && r.buffer.packets[j] == p;
                assert(was_pushed(ops, r.buffer.packets[j], r.place_of(key(p))));
            }
        }
    } else {
        assert(after.buffer.packets =~= seq![packet]);
    }
}

/// Where playout moves on by at most half the range, what comes after it keeps
/// its place.
proof fn lemma_place_kept(position: int, b: u16, l: u16, k: u16)
    requires
        b == position % 0x1_0000,
        (l - b) % 0x1_0000 <= 0x8000,
        seq_before(b, k),
        seq_before(l, k),
    ensures
        ({
            let moved = position + (l - position) % 0x1_0000;
            &&& moved % 0x1_0000 == l
            &&& moved + (k - moved) % 0x1_0000 == position + (k - position) % 0x1_0000
        }),
{
    let moved = position + (l - position) % 0x1_0000;
    lemma_position_moved(position, l);
    lemma_offset(position, b, l);
    lemma_offset(position, b, k);
    lemma_offset(moved, l, k);
}

/// A packet that is given lies after the position, and not after the new one.
proof fn lemma_place_given(position: int, b: u16, l: u16, k: u16)
    requires
        b == position % 0x1_0000,
        seq_before(b, k),
        l == k || l == seq_plus(k, 1),
    ensures
        position < position + (k - position) % 0x1_0000,
        position + (k - position) % 0x1_0000 <= position + (l - position) % 0x1_0000,
        (position + (k - position) % 0x1_0000) % 0x1_0000 == k,
{
    lemma_offset(position, b, k);
    lemma_offset(position, b, l);
    lemma_position_moved(position, k);
}

proof fn lemma_run_pop(r: JitterRun, ops: Seq<JitterOp>, jitter_target_ms: u32)
    requires
        ops.len() > 0,
        ops.last() == (JitterOp::Pop { jitter_target_ms }),
        run_inv(r, ops.drop_last()),
    ensures
        run_inv(r.stepped(ops.last()), ops),
{
    let b = (r.position % 0x1_0000) as u16;
    lemma_pop_in_order(r.buffer, b, jitter_target_ms);
    lemma_pop_moves(r.buffer, b, jitter_target_ms);
    lemma_run_popped(
        r,
        ops,
        r.stepped(ops.last()),
        r.buffer.popped(jitter_target_ms).1,
    );
}

proof fn lemma_run_popped(
    r: JitterRun,
    ops: Seq<JitterOp>,
    after: JitterRun,
    given: Option<PacketModel>,
)
    requires
        ops.len() > 0,
        run_inv(r, ops.drop_last()),
        popped_in_order(r.buffer, (r.position % 0x1_0000) as u16, after.buffer, given),
        pop_moves(r.buffer, (r.position % 0x1_0000) as u16, after.buffer, given),
        after.position == match after.buffer.last_played {
            Some(l) => r.place_of(l),
            None => r.position,
        },
        after.played == match given {
            Some(p) => r.played.push(p),
            None => r.played,
        },
        after.places == match given {
            Some(p) => r.places.push(r.place_of(key(p))),
            None => r.places,
        },
    ensures
        run_inv(after, ops),
{
    let b = (r.position % 0x1_0000) as u16;
    let m = r.buffer;
    let n = after.buffer;
    assert forall|i: int| 0 <= i < m.packets.len() implies was_pushed(
        ops,
        #[trigger] m.packets[i],
        r.place_of(key(m.packets[i])),
    ) by {
        lemma_was_pushed(ops, m.packets[i], r.place_of(key(m.packets[i])));
    }
    assert forall|i: int| 0 <= i < r.played.len() implies was_pushed(
        ops,
        #[trigger] r.played[i],
        r.places[i],
    ) by {
        lemma_was_pushed(ops, r.played[i], r.places[i]);
    }
    assert forall|i: int| 0 <= i < n.packets.len() implies was_pushed(
        ops,
        #[trigger] n.packets[i],
        after.place_of(key(n.packets[i])),
    ) by {
        let p = n.packets[i];
        let j = choose|j: int| 0 <= j < m.packets.len() && m.packets[j] == p;
        assert(was_pushed(ops, m.packets[j], r.place_of(key(p))));
        assert(seq_before(b, key(m.packets[j])));
        if n.last_played is Some {
            assert(seq_before(n.last_played->0, key(n.packets[i])));
            lemma_place_kept(r.position, b, n.last_played->0, key(p));
        }
    }
    if n.last_played is Some {
        lemma_position_moved(r.position, n.last_played->0);
    }
    if given is Some {
        let p = given->0;
        let j = choose|j: int| 0 <= j < m.packets.len() && m.packets[j] == p;
        assert(was_pushed(ops, m.packets[j], r.place_of(key(p))));
        lemma_place_given(r.position, b, n.last_played->0, key(p));
    }
}

/// The position only moves on, to where the last number played is.
proof fn lemma_position_moved(position: int, l: u16)
    ensures
        position <= position + (l - position) % 0x1_0000,
        (position + (l - position) % 0x1_0000) % 0x1_0000 == l,
{
    let b = (position % 0x1_0000) as u16;
    lemma_offset(position, b, l);
    lemma_remainder(position, b, position + (l - position) % 0x1_0000);
}

impl JitterRun {
    /// No packet starts the buffer over.
    pub open spec fn never_restarts(self, ops: Seq<JitterOp>) -> bool
        decreases ops.len(),
    {
        ops.len() == 0 || (self.never_restarts(ops.drop_last()) && (
        ops.last() matches JitterOp::Push { packet, .. } ==> {
            let m = self.run(ops.drop_last()).buffer;
            m.too_late(key(packet)) || !m.jumped(packet.header.timestamp)
        }))
    }
}

/// All that is pushed has places after a position, less than half the range
/// away.
pub open spec fn in_window(ops: Seq<JitterOp>, position: int) -> bool {
    forall|n: int|
        0 <= n < ops.len() ==> (#[trigger] ops[n] matches JitterOp::Push { packet, place, .. }
            ==> key(packet) == place % 0x1_0000 && position < place < position + 0x8000)
}

/// As long as no packet starts the buffer over, packets of one window come out
/// in the order of their sequence numbers, in whatever order they are pushed and
/// whenever a packet is asked for. The delays are two milliseconds or more, so
/// that playout waits while the buffer is empty.
pub proof fn law_window_plays_in_order(config: JitterConfig, position: int, ops: Seq<JitterOp>)
    requires
        config.is_valid(),
        config.min_delay_ms >= 2,
        config.target_delay_ms >= 2,
        in_window(ops, position),
        JitterRun::start(config, position).never_restarts(ops),
    ensures
        ({
            let end = JitterRun::start(config, position).run(ops);
            &&& forall|i: int|
                0 <= i < end.played.len() ==> was_pushed(
                    ops,
                    #[trigger] end.played[i],
                    end.places[i],
                )
            &&& forall|i: int, j: int|
                0 <= i < j < end.played.len() ==> seq_before(
                    key(#[trigger] end.played[i]),
                    key(#[trigger] end.played[j]),
                )
            &&& forall|jitter_target_ms: u32|
                !end.buffer.initial_buffering_done ==> #[trigger] end.buffer.popped(
                    jitter_target_ms,
                ) == (end.buffer, None::<PacketModel>)
        }),
{
    lemma_window(config, position, ops);
    law_run_plays_in_order(config, position, ops);
    let end = JitterRun::start(config, position).run(ops);
    assert forall|i: int, j: int| 0 <= i < j < end.played.len() implies seq_before(
        key(#[trigger] end.played[i]),
        key(#[trigger] end.played[j]),
    ) by {
        lemma_pushed_in_window(ops, position, end.played[i], end.places[i]);
        lemma_pushed_in_window(ops, position, end.played[j], end.places[j]);
    }
}

/// What was pushed lies in the window.
proof fn lemma_pushed_in_window(ops: Seq<JitterOp>, position: int, p: PacketModel, at: int)
    requires
        in_window(ops, position),
        was_pushed(ops, p, at),
    ensures
        position < at < position + 0x8000,
{
    let n = choose|n: int| 0 <= n < ops.len() && (#[trigger] ops[n]).pushes(p, at);
    assert(ops[n].pushes(p, at));
}

/// Delays with which playout waits while the buffer is empty.
spec fn patient(m: JitterModel) -> bool {
    &&& m.config.is_valid()
    &&& m.config.min_delay_ms >= 2
    &&& 2 <= m.current_delay_ms <= 0x7FFF_FFFF
}

/// What holds throughout a run of one window.
spec fn window_inv(r: JitterRun, position: int) -> bool {
    &&& patient(r.buffer)
    &&& position <= r.position <= position + 0x8000
    &&& r.buffer.last_played is None ==> r.position == position
}

proof fn lemma_window(config: JitterConfig, position: int, ops: Seq<JitterOp>)
    requires
        config.is_valid(),
        config.min_delay_ms >= 2,
        config.target_delay_ms >= 2,
        in_window(ops, position),
        JitterRun::start(config, position).never_restarts(ops),
    ensures
        JitterRun::start(config, position).admits_all(ops),
        window_inv(JitterRun::start(config, position).run(ops), position),
    decreases ops.len(),
{
    if ops.len() > 0 {
        let before = JitterRun::start(config, position).run(ops.drop_last());
        let b = (before.position % 0x1_0000) as u16;
        assert(in_window(ops.drop_last(), position)) by {
            assert forall|n: int| 0 <= n < ops.len() - 1 implies #[trigger] ops.drop_last()[n]
                == ops[n] by {}
        }
        lemma_window(config, position, ops.drop_last());
        lemma_run(config, position, ops.drop_last());
        assert(ops[ops.len() - 1] == ops.last());
        match ops.last() {
            JitterOp::Push { packet, place, now } => {
                lemma_place(before.position, place, b, key(packet));
                lemma_push_in_order(before.buffer, b, packet, now);
            },
            JitterOp::Pop { jitter_target_ms } => {
                lemma_window_pop(before, ops, position, jitter_target_ms);
            },
        }
    }
}

proof fn lemma_window_pop(
    r: JitterRun,
    ops: Seq<JitterOp>,
    position: int,
    jitter_target_ms: u32,
)
    requires
        ops.len() > 0,
        in_window(ops, position),
        run_inv(r, ops.drop_last()),
        window_inv(r, position),
    ensures
        window_inv(r.stepped(JitterOp::Pop { jitter_target_ms }), position),
{
    let b = (r.position % 0x1_0000) as u16;
    let m = r.buffer;
    lemma_pop_in_order(m, b, jitter_target_ms);
    lemma_pop_moves(m, b, jitter_target_ms);
    lemma_pop_waits(m, jitter_target_ms);
    let (n, given) = m.popped(jitter_target_ms);
    if m.packets.len() > 0 {
        lemma_in_window(r, ops, position, 0);
    }
    if given is Some {
        let j = choose|j: int| 0 <= j < m.packets.len() && m.packets[j] == given->0;
        lemma_in_window(r, ops, position, j);
        lemma_next_place(r.position, b, key(given->0));
    } else if n.last_played is Some {
        lemma_next_place(r.position, b, b);
    }
}

/// What the buffer holds lies in the window.
proof fn lemma_in_window(r: JitterRun, ops: Seq<JitterOp>, position: int, i: int)
    requires
        ops.len() > 0,
        in_window(ops, position),
        run_inv(r, ops.drop_last()),
        0 <= i < r.buffer.packets.len(),
    ensures
        r.position < r.place_of(key(r.buffer.packets[i])) < position + 0x8000,
{
    let p = r.buffer.packets[i];
    let b = (r.position % 0x1_0000) as u16;
    lemma_was_pushed(ops, p, r.place_of(key(p)));
    lemma_pushed_in_window(ops, position, p, r.place_of(key(p)));
    assert(seq_before(b, key(p)));
    lemma_offset(r.position, b, key(p));
}

/// Where a number and the one after it lie.
proof fn lemma_next_place(position: int, b: u16, k: u16)
    requires
        b == position % 0x1_0000,
        k == b || seq_before(b, k),
    ensures
        k == b ==> (k - position) % 0x1_0000 == 0,
        (seq_plus(k, 1) - position) % 0x1_0000 == (k - position) % 0x1_0000 + 1,
{
    lemma_offset(position, b, k);
    lemma_offset(position, b, seq_plus(k, 1));
}

/// A pop keeps the delays, and moves on without a packet only if it has some.
proof fn lemma_pop_waits(m: JitterModel, jitter_target_ms: u32)
    requires
        patient(m),
        ordered(m.packets),
        m.playout_started ==> m.initial_buffering_done,
    ensures
        ({
            let (after, r) = m.popped(jitter_target_ms);
            &&& patient(after)
            &&& r is None && after.last_played != m.last_played ==> m.packets.len() > 0
                && m.last_played is Some && after.last_played == Some(
                seq_plus(m.last_played->0, 1),
            )
        }),
{
    if m.initial_buffering_done || m.playout_started {
        let started = JitterModel {
            playout_started: true,
            pop_count: (m.pop_count + 1) as u32,
            drift_check: (m.drift_check + 1) as u32,
            ..m
        };
        let t = started.trimmed();
        lemma_trimmed(started);
        assert(patient(t) && t.initial_buffering_done && t.last_played == m.last_played);
        assert(t.packets.len() > 0 ==> m.packets.len() > 0);
        match t.last_played {
            Some(l) => {
                lemma_popped_at_waits(t, seq_plus(l, 1), jitter_target_ms);
            },
            None => {
                if t.packets.len() > 0 {
                    lemma_popped_at_waits(t, oldest(t.packets), jitter_target_ms);
                    lemma_oldest(t.packets);
                }
            },
        }
    }
}

proof fn lemma_popped_at_waits(m: JitterModel, target: u16, jitter_target_ms: u32)
    requires
        patient(m),
        m.initial_buffering_done,
    ensures
        ({
            let (after, r) = m.popped_at(target, jitter_target_ms);
            &&& patient(after)
            &&& r is None && after.last_played != m.last_played ==> m.packets.len() > 0
                && after.last_played == Some(target) && !holds(m.packets, target)
        }),
{
    assert(m.config.duration_ms(0) == 0);
    if holds(m.packets, target) {
        let c = m.played(target);
        assert(patient(c.batch_adapted(jitter_target_ms)));
    }
}

/// Pushing keeps the number of packets within the limit.
pub proof fn law_push_bounded(m: JitterModel, p: PacketModel, now: u64)
    requires
        m.wf(),
        m.packets.len() <= m.config.max_packets,
        m.config.max_packets > 0,
    ensures
        m.pushed(p, now).0.packets.len() <= m.config.max_packets,
{
    let t = m.received().timed(p.header.timestamp, now);
    let noted = t.order_noted(key(p)).gap_noted(key(p));
    lemma_gap_keeps(t.order_noted(key(p)), key(p));
    if !holds(noted.packets, key(p)) {
        lemma_slot(noted.packets, key(p));
        lemma_ordered(noted.packets, p, 0);
        let added = JitterModel { packets: with_packet(noted.packets, p), ..noted };
        let expects = if noted.next_sequence matches Some(e) && seq_before(key(p), e) {
            noted.next_sequence
        } else {
            Some(seq_plus(key(p), 1))
        };
        lemma_evicted_bounded(JitterModel { next_sequence: expects, ..added });
    }
}

/// Asking for retransmissions leaves packets, settings and playout alone.
proof fn lemma_gap_keeps(m: JitterModel, k: u16)
    ensures
        m.gap_noted(k).packets == m.packets,
        m.gap_noted(k).config == m.config,
        m.gap_noted(k).last_played == m.last_played,
        m.gap_noted(k).playout_started == m.playout_started,
        m.gap_noted(k).initial_buffering_done == m.initial_buffering_done,
        m.gap_noted(k).current_delay_ms == m.current_delay_ms,
{
    if m.next_sequence is Some {
        lemma_nacks_keep(m, m.next_sequence->0, ((k - m.next_sequence->0) % 0x1_0000) as nat);
    }
}

proof fn lemma_nacks_keep(m: JitterModel, e: u16, n: nat)
    ensures
        m.nacks_from(e, n).packets == m.packets,
        m.nacks_from(e, n).config == m.config,
        m.nacks_from(e, n).last_played == m.last_played,
        m.nacks_from(e, n).playout_started == m.playout_started,
        m.nacks_from(e, n).initial_buffering_done == m.initial_buffering_done,
        m.nacks_from(e, n).current_delay_ms == m.current_delay_ms,
    decreases n,
{
    if n > 0 {
        lemma_nacks_keep(m, e, (n - 1) as nat);
    }
}

proof fn lemma_evicted_bounded(m: JitterModel)
    requires
        ordered(m.packets),
    ensures
        m.evicted().packets.len() <= m.config.max_packets,
    decreases m.packets.len(),
{
    if m.packets.len() > m.config.max_packets {
        let k = oldest(m.packets);
        lemma_oldest(m.packets);
        lemma_slot(m.packets, k);
        lemma_ordered(m.packets, m.packets[0], k);
        lemma_evicted_bounded(m.removed(k).dropped());
    }
}

// ---------------------------------------------------------------------------
// Buffer
// ---------------------------------------------------------------------------

/// Adaptive jitter buffer for RTP packets.
pub struct JitterBuffer {
    pub config: JitterConfig,
    /// Packets in ascending order of sequence numbers.
    pub packets: Vec<RtpPacket>,
    pub next_sequence: Option<u16>,
    pub last_played: Option<u16>,
    pub stats: JitterStats,
    pub last_arrival: Option<u64>,
    pub last_timestamp: Option<u32>,
    pub current_delay_ms: u32,
    pub playout_started: bool,
    pub initial_buffering_done: bool,
    pub nack_list: VecDeque<u16>,
    pub consecutive_miss: u32,
    pub pop_count: u32,
    pub drift_high_count: u32,
    pub drift_low_count: u32,
    pub drift_check_count: u32,
}

/// The content of a list of packets.
pub open spec fn models(v: Seq<RtpPacket>) -> Seq<PacketModel> {
    Seq::new(v.len(), |i: int| v[i]@)
}

impl View for JitterBuffer {
    type V = JitterModel;

    open spec fn view(&self) -> JitterModel {
        JitterModel {
            config: self.config,
            packets: models(self.packets@),
            next_sequence: self.next_sequence,
            last_played: self.last_played,
            stats: self.stats,
            last_arrival: self.last_arrival,
            last_timestamp: self.last_timestamp,
            current_delay_ms: self.current_delay_ms,
            playout_started: self.playout_started,
            initial_buffering_done: self.initial_buffering_done,
            nacks: self.nack_list@,
            consecutive_miss: self.consecutive_miss,
            pop_count: self.pop_count,
            drift_high: self.drift_high_count,
            drift_low: self.drift_low_count,
            drift_check: self.drift_check_count,
        }
    }
}

impl Default for JitterBuffer {
    fn default() -> (jb: JitterBuffer)
        ensures
            jb@.wf(),
            jb@ == JitterModel::empty(jb@.config),
    {
        JitterBuffer::new()
    }
}

impl JitterBuffer {
    /// A buffer with the default settings.
    pub fn new() -> (jb: JitterBuffer)
        ensures
            jb@.wf(),
            jb@ == JitterModel::empty(
                JitterConfig {
                    min_delay_ms: 20,
                    max_delay_ms: 200,
                    target_delay_ms: 60,
                    max_packets: 50,
                    sample_rate: 8000,
                    samples_per_packet: 160,
                    nack_enabled: false,
                    max_wait_before_loss: 2,
                },
            ),
    {
        JitterBuffer::with_config(JitterConfig::default())
    }

    /// A buffer with the given settings.
    pub fn with_config(config: JitterConfig) -> (jb: JitterBuffer)
        ensures
            jb@ == JitterModel::empty(config),
            config.is_valid() ==> jb@.wf(),
    {
        let jb = JitterBuffer {
            config,
            packets: Vec::new(),
            next_sequence: None,
            last_played: None,
            stats: JitterStats::default(),
            last_arrival: None,
            last_timestamp: None,
            current_delay_ms: config.target_delay_ms,
            playout_started: false,
            initial_buffering_done: false,
            nack_list: VecDeque::new(),
            consecutive_miss: 0,
            pop_count: 0,
            drift_high_count: 0,
            drift_low_count: 0,
            drift_check_count: 0,
        };
        assert(jb@ =~= JitterModel::empty(config));
        jb
    }

    /// Whether `a` comes before `b`, less than half the range apart.
    pub fn sequence_before(a: u16, b: u16) -> (r: bool)
        ensures
            r == seq_before(a, b),
    {
        let diff: u16 = b.wrapping_sub(a);
        diff > 0 && diff < 0x8000
    }

    /// Whether `a` comes after `b`, less than half the range apart.
    pub fn sequence_after(a: u16, b: u16) -> (r: bool)
        ensures
            r == seq_before(b, a),
    {
        JitterBuffer::sequence_before(b, a)
    }

    /// Where a sequence number stands or would stand.
    fn find_slot(&self, k: u16) -> (n: usize)
        requires
            ordered(self@.packets),
        ensures
            n == slot(self@.packets, k),
            n <= self.packets@.len(),
    {
        let mut n: usize = 0;
        while n < self.packets.len() && self.packets[n].header.sequence_number < k
            invariant
                n <= self.packets@.len(),
                forall|i: int| 0 <= i < n ==> key(#[trigger] self@.packets[i]) < k,
            decreases self.packets@.len() - n,
        {
            n += 1;
        }
        proof {
            lemma_slot_is(self@.packets, k, n as int);
        }
        n
    }

    /// Whether a sequence number is in the buffer.
    pub fn contains_seq(&self, seq: u16) -> (r: bool)
        requires
            ordered(self@.packets),
        ensures
            r == holds(self@.packets, seq),
    {
        let n: usize = self.find_slot(seq);
        n < self.packets.len() && self.packets[n].header.sequence_number == seq
    }

    /// Put a packet in its place.
    fn insert_packet(&mut self, packet: RtpPacket)
        requires
            ordered(old(self)@.packets),
            !holds(old(self)@.packets, packet.header.sequence_number),
        ensures
            final(self)@ == (JitterModel {
                packets: with_packet(old(self)@.packets, packet@),
                ..old(self)@
            }),
            ordered(final(self)@.packets),
    {
        let n: usize = self.find_slot(packet.header.sequence_number);
        proof {
            lemma_ordered(self@.packets, packet@, 0);
        }
        self.packets.insert(n, packet);
        assert(models(self.packets@) =~= with_packet(old(self)@.packets, packet@));
    }

    /// Take a packet out.
    fn remove_packet(&mut self, k: u16) -> (r: Option<RtpPacket>)
        requires
            ordered(old(self)@.packets),
        ensures
            final(self)@ == old(self)@.removed(k),
            ordered(final(self)@.packets),
            match r {
                Some(p) => holds(old(self)@.packets, k) && p@ == old(self)@.packets[slot(
                    old(self)@.packets,
                    k,
                )],
                None => !holds(old(self)@.packets, k),
            },
    {
        let n: usize = self.find_slot(k);
        proof {
            lemma_slot(self@.packets, k);
            if self@.packets.len() > 0 {
                lemma_ordered(self@.packets, self@.packets[0], k);
            }
        }
        if n < self.packets.len() && self.packets[n].header.sequence_number == k {
            let p = self.packets.remove(n);
            assert(models(self.packets@) =~= without(old(self)@.packets, k));
            Some(p)
        } else {
            None
        }
    }

    /// The oldest sequence number.
    fn oldest_seq(&self) -> (k: u16)
        requires
            self.packets@.len() > 0,
        ensures
            k == oldest(self@.packets),
    {
        let mut k: u16 = self.packets[0].header.sequence_number;
        let mut i: usize = 1;
        assert(k == oldest(self@.packets.subrange(0, 1)));
        while i < self.packets.len()
            invariant
                1 <= i <= self.packets@.len(),
                k == oldest(self@.packets.subrange(0, i as int)),
            decreases self.packets@.len() - i,
        {
            let c: u16 = self.packets[i].header.sequence_number;
            let ghost upto = self@.packets.subrange(0, i + 1);
            assert(upto.drop_last() =~= self@.packets.subrange(0, i as int));
            assert(key(upto.last()) == c);
            if JitterBuffer::sequence_before(c, k) {
                k = c;
            }
            i += 1;
        }
        assert(self@.packets.subrange(0, i as int) =~= self@.packets);
        k
    }

    /// Milliseconds of audio in the buffer.
    fn buffered_ms(&self) -> (ms: u32)
        requires
            self@.wf(),
        ensures
            ms == self@.config.duration_ms(self@.packets.len()),
    {
        let n: u64 = self.packets.len() as u64;
        proof {
            lemma_len(self@.packets, self@.packets.len() as int);
        }
        let spp: u64 = self.config.samples_per_packet as u64;
        assert(n * spp <= 0x1_0000 * 0xFFFF_FFFF) by (nonlinear_arith)
            requires
                n <= 0x1_0000,
                spp <= 0xFFFF_FFFF,
        ;
        let ms: u64 = n * spp * 1000 / self.config.sample_rate as u64;
        (ms % 0x1_0000_0000) as u32
    }

    /// Drop the oldest packets until no more than the most remain.
    fn evict(&mut self)
        requires
            old(self)@.wf(),
            old(self)@.stats.packets_dropped + old(self)@.packets.len() <= u64::MAX,
        ensures
            final(self)@ == old(self)@.evicted(),
            final(self)@.wf(),
            final(self)@.packets.len() <= old(self)@.packets.len(),
    {
        while self.packets.len() > self.config.max_packets
            invariant
                self@.wf(),
                self@.stats.packets_dropped + self@.packets.len() <= u64::MAX,
                self@.evicted() == old(self)@.evicted(),
                self@.packets.len() <= old(self)@.packets.len(),
            decreases self@.packets.len(),
        {
            let k: u16 = self.oldest_seq();
            let ghost before = self@;
            proof {
                lemma_oldest(before.packets);
                lemma_slot(before.packets, k);
            }
            let _p = self.remove_packet(k);
            self.stats.packets_dropped = self.stats.packets_dropped + 1;
            assert(self@ =~= before.removed(k).dropped());
        }
    }

    /// Ask again for the numbers before `seq` that are missing.
    fn note_gap(&mut self, seq: u16)
        requires
            old(self)@.wf(),
            old(self)@.stats.nack_requests + 100 <= u64::MAX,
        ensures
            final(self)@ == old(self)@.gap_noted(seq),
            final(self)@.wf(),
            final(self)@.packets == old(self)@.packets,
            final(self)@.next_sequence == old(self)@.next_sequence,
            final(self)@.config == old(self)@.config,
            final(self)@.stats.packets_dropped == old(self)@.stats.packets_dropped,
            final(self)@.stats.packets_duplicated == old(self)@.stats.packets_duplicated,
    {
        if !self.config.nack_enabled {
            return ;
        }
        let expected: u16 = match self.next_sequence {
            Some(e) => e,
            None => {
                return ;
            },
        };
        if !JitterBuffer::sequence_after(seq, expected) {
            return ;
        }
        let gap: u16 = seq.wrapping_sub(expected);
        if gap > 100 {
            return ;
        }
        let mut i: u16 = 0;
        while i < gap
            invariant
                i <= gap <= 100,
                self@ == old(self)@.nacks_from(expected, i as nat),
                self@.wf(),
                self@.packets == old(self)@.packets,
                self@.next_sequence == old(self)@.next_sequence,
                self@.config == old(self)@.config,
                self@.stats.packets_dropped == old(self)@.stats.packets_dropped,
                self@.stats.packets_duplicated == old(self)@.stats.packets_duplicated,
                self@.stats.nack_requests + 100 - i <= u64::MAX,
            decreases gap - i,
        {
            let missing: u16 = expected.wrapping_add(i);
            let ghost before = self@;
            assert(missing == seq_plus(expected, i as int));
            if !self.contains_seq(missing) {
                if self.nack_list.len() >= 500 {
                    let _ = self.nack_list.pop_front();
                }
                self.nack_list.push_back(missing);
                self.stats.nack_requests = self.stats.nack_requests + 1;
                assert(self@ =~= before.nack_added(missing));
            }
            i += 1;
        }
    }

    /// Put a packet that the buffer does not hold in its place.
    fn store(&mut self, packet: RtpPacket)
        requires
            old(self)@.wf(),
            !holds(old(self)@.packets, packet.header.sequence_number),
            old(self)@.stats.packets_dropped <= u64::MAX - 0x2_0000,
        ensures
            final(self)@ == old(self)@.stored(packet@),
            final(self)@.wf(),
    {
        let seq: u16 = packet.header.sequence_number;
        let late: bool = match self.next_sequence {
            Some(e) => JitterBuffer::sequence_before(seq, e),
            None => false,
        };
        if !late {
            self.next_sequence = Some(seq.wrapping_add(1));
        }
        self.insert_packet(packet);
        proof {
            lemma_len(self@.packets, self@.packets.len() as int);
        }
        self.evict();
        let ghost kept = self@;
        self.stats.buffer_size = self.packets.len();
        let ghost sized = self@;
        assert(sized =~= kept.sized());
        if !self.initial_buffering_done {
            let ms: u32 = self.buffered_ms();
            let enough: u32 = if self.current_delay_ms < self.config.target_delay_ms {
                self.current_delay_ms
            } else {
                self.config.target_delay_ms
            };
            if ms >= enough {
                self.initial_buffering_done = true;
            }
        }
        assert(self@ =~= sized.buffering_checked());
    }

    /// Take in a packet that is not too late.
    fn take(&mut self, packet: RtpPacket)
        requires
            old(self)@.wf(),
            old(self)@.stats.packets_reordered < u64::MAX,
            old(self)@.stats.packets_duplicated < u64::MAX,
            old(self)@.stats.packets_dropped <= u64::MAX - 0x2_0000,
            old(self)@.stats.nack_requests + 100 <= u64::MAX,
        ensures
            final(self)@ == old(self)@.taken(packet@),
            final(self)@.wf(),
    {
        let seq: u16 = packet.header.sequence_number;
        if let Some(expected) = self.next_sequence {
            if JitterBuffer::sequence_before(seq, expected) {
                self.stats.packets_reordered = self.stats.packets_reordered + 1;
            }
        }
        assert(self@ =~= old(self)@.order_noted(seq));
        self.note_gap(seq);
        let ghost m = self@;
        if self.contains_seq(seq) {
            self.stats.packets_duplicated = self.stats.packets_duplicated + 1;
            assert(self@ =~= m.duplicated());
        } else {
            self.store(packet);
        }
    }

    /// Put a packet that came at `now_ns` into the buffer.
    #[verifier::rlimit(40)]
    pub fn push(&mut self, packet: RtpPacket, now_ns: u64) -> (step: JitterStep)
        requires
            old(self)@.wf(),
            old(self)@.has_room(),
        ensures
            (final(self)@, step) == old(self)@.pushed(packet@, now_ns),
            final(self)@.wf(),
    {
        let seq: u16 = packet.header.sequence_number;
        let timestamp: u32 = packet.header.timestamp;
        self.stats.packets_received = self.stats.packets_received + 1;
        assert(self@ =~= old(self)@.received());
        if let Some(last) = self.last_played {
            if JitterBuffer::sequence_before(seq, last) || seq == last {
                self.stats.packets_dropped = self.stats.packets_dropped + 1;
                assert(self@ =~= old(self)@.received().dropped());
                return JitterStep::Unchanged;
            }
        }
        let mut step = JitterStep::Unchanged;
        match (self.last_arrival, self.last_timestamp) {
            (Some(last_arrival), Some(last_timestamp)) => {
                let raw: u32 = timestamp.wrapping_sub(last_timestamp);
                let delta: i64 = if raw < 0x8000_0000 {
                    raw as i64
                } else {
                    raw as i64 - 0x1_0000_0000
                };
                assert(delta == timestamp_delta(timestamp, last_timestamp));
                let size: i64 = if delta < 0 {
                    -delta
                } else {
                    delta
                };
                if size > self.config.sample_rate as i64 * 5 {
                    self.reset();
                    self.stats.packets_received = self.stats.packets_received + 1;
                    self.last_arrival = Some(now_ns);
                    self.last_timestamp = Some(timestamp);
                    self.next_sequence = Some(seq.wrapping_add(1));
                    self.packets.push(packet);
                    self.stats.buffer_size = self.packets.len();
                    assert(self@ =~= old(self)@.restarted(packet@, now_ns));
                    return JitterStep::Reset;
                }
                let arrived: i64 = if now_ns >= last_arrival {
                    ((now_ns - last_arrival) / 1_000_000) as i64
                } else {
                    0
                };
                let stamped_size: i64 = size * 1000 / self.config.sample_rate as i64;
                let stamped: i64 = if delta < 0 {
                    -stamped_size
                } else {
                    stamped_size
                };
                let d: i64 = if arrived >= stamped {
                    arrived - stamped
                } else {
                    stamped - arrived
                };
                step = JitterStep::Deviation(d as u64);
                if delta >= 0 {
                    self.last_arrival = Some(now_ns);
                    self.last_timestamp = Some(timestamp);
                }
            },
            _ => {
                self.last_arrival = Some(now_ns);
                self.last_timestamp = Some(timestamp);
            },
        }
        assert(self@ =~= old(self)@.received().timed(timestamp, now_ns));
        self.take(packet);
        step
    }

    /// Empty the buffer and start over.
    pub fn reset(&mut self)
        ensures
            final(self)@ == JitterModel::empty(old(self)@.config),
            old(self)@.config.is_valid() ==> final(self)@.wf(),
    {
        self.packets.clear();
        self.next_sequence = None;
        self.last_played = None;
        self.stats = JitterStats::default();
        self.last_arrival = None;
        self.last_timestamp = None;
        self.current_delay_ms = self.config.target_delay_ms;
        self.playout_started = false;
        self.initial_buffering_done = false;
        self.nack_list.clear();
        self.consecutive_miss = 0;
        self.pop_count = 0;
        self.drift_high_count = 0;
        self.drift_low_count = 0;
        self.drift_check_count = 0;
        assert(self@ =~= JitterModel::empty(old(self)@.config));
    }

    /// Drop the oldest packet where the buffer holds more than twice the delay.
    fn trim(&mut self)
        requires
            old(self)@.wf(),
            old(self)@.stats.packets_dropped < u64::MAX,
        ensures
            final(self)@ == old(self)@.trimmed(),
            final(self)@.wf(),
    {
        if self.initial_buffering_done {
            let ms: u32 = self.buffered_ms();
            if ms > self.current_delay_ms * 2 && self.current_delay_ms > 0 && self.packets.len()
                > 0 {
                let k: u16 = self.oldest_seq();
                let _p = self.remove_packet(k);
                self.stats.packets_dropped = self.stats.packets_dropped + 1;
                self.stats.buffer_size = self.packets.len();
                assert(self@ =~= old(self)@.trimmed());
            }
        }
    }

    /// Move the delay towards what the jitter calls for.
    fn adapt_delay(&mut self, jitter_target_ms: u32)
        requires
            old(self)@.wf(),
        ensures
            final(self)@ == old(self)@.adapted(jitter_target_ms),
            final(self)@.wf(),
    {
        let level: u32 = self.buffered_ms();
        let wanted: u32 = if jitter_target_ms < self.config.min_delay_ms {
            self.config.min_delay_ms
        } else if jitter_target_ms > self.config.max_delay_ms {
            self.config.max_delay_ms
        } else {
            jitter_target_ms
        };
        let ptime: u32 = self.config.samples_per_packet * 1000 / self.config.sample_rate;
        let band: u32 = if ptime >= 1 {
            ptime
        } else {
            1
        };
        let low: u32 = wanted.saturating_sub(band);
        let high: u32 = wanted.saturating_add(band);
        if level < low {
            let more: u32 = self.current_delay_ms + 5;
            self.current_delay_ms = if more < self.config.max_delay_ms {
                more
            } else {
                self.config.max_delay_ms
            };
        } else if level > high {
            let less: u32 = self.current_delay_ms.saturating_sub(5);
            self.current_delay_ms = if less > self.config.min_delay_ms {
                less
            } else {
                self.config.min_delay_ms
            };
        }
        self.stats.buffer_delay_ms = self.current_delay_ms;
        assert(self@ =~= old(self)@.adapted(jitter_target_ms));
    }

    /// Look at the fill against the starting delay.
    fn check_drift(&mut self)
        requires
            old(self)@.wf(),
            old(self)@.last_played is Some,
            old(self)@.stats.packets_dropped < u64::MAX,
        ensures
            final(self)@ == old(self)@.drift_checked(),
            final(self)@.wf(),
    {
        if self.drift_check_count % 500 != 0 || self.drift_check_count == 0 {
            return ;
        }
        let fill: u64 = self.packets.len() as u64;
        let ptime: u32 = self.config.samples_per_packet * 1000 / self.config.sample_rate;
        let per: u32 = if ptime >= 1 {
            ptime
        } else {
            1
        };
        let target: u64 = (self.config.target_delay_ms / per) as u64;
        if fill > target + 2 {
            self.drift_high_count = self.drift_high_count + 1;
            self.drift_low_count = 0;
            if self.drift_high_count >= 3 {
                self.drift_high_count = 0;
                let ghost before = self@;
                assert(before =~= (JitterModel { drift_high: 0, drift_low: 0, ..old(self)@ }));
                if let Some(last) = self.last_played {
                    let skipped: u16 = last.wrapping_add(1);
                    if self.remove_packet(skipped).is_some() {
                        self.stats.packets_dropped = self.stats.packets_dropped + 1;
                        self.stats.buffer_size = self.packets.len();
                    }
                    self.last_played = Some(skipped);
                }
                assert(self@ =~= before.passed_over());
            }
        } else if target > 2 && fill < target - 2 {
            self.drift_low_count = self.drift_low_count + 1;
            self.drift_high_count = 0;
            if self.drift_low_count >= 3 {
                self.drift_low_count = 0;
            }
        } else {
            self.drift_high_count = 0;
            self.drift_low_count = 0;
        }
        assert(self@ =~= old(self)@.drift_checked());
    }

    /// The next packet to play, or nothing while the buffer fills or waits.
    /// `jitter_target_ms` is the delay that the smoothed jitter calls for.
    pub fn pop(&mut self, jitter_target_ms: u32) -> (r: Option<RtpPacket>)
        requires
            old(self)@.wf(),
            old(self)@.has_room(),
        ensures
            final(self)@ == old(self)@.popped(jitter_target_ms).0,
            match r {
                Some(p) => old(self)@.popped(jitter_target_ms).1 == Some(p@),
                None => old(self)@.popped(jitter_target_ms).1 is None,
            },
            final(self)@.wf(),
    {
        if !self.initial_buffering_done && !self.playout_started {
            return None;
        }
        self.playout_started = true;
        self.pop_count = self.pop_count + 1;
        self.drift_check_count = self.drift_check_count + 1;
        self.trim();
        let target: u16 = match self.last_played {
            Some(l) => l.wrapping_add(1),
            None => {
                if self.packets.len() == 0 {
                    return None;
                }
                self.oldest_seq()
            },
        };
        self.pop_at(target, jitter_target_ms)
    }

    /// All packets that are ready to play, in the order of playing.
    pub fn drain(&mut self, jitter_target_ms: u32) -> (v: Vec<RtpPacket>)
        requires
            old(self)@.wf(),
            old(self)@.has_room_to_drain(),
        ensures
            (final(self)@, models(v@)) == old(self)@.drained(jitter_target_ms),
            final(self)@.wf(),
    {
        let mut v: Vec<RtpPacket> = Vec::new();
        let ghost m0 = self@;
        let ghost mut k: nat = 0;
        let mut more: bool = true;
        proof {
            lemma_ordered_len(m0.packets);
            assert(models(v@) + m0.drained(jitter_target_ms).1 =~= m0.drained(
                jitter_target_ms,
            ).1);
        }
        while more
            invariant
                self@.wf(),
                m0.has_room_to_drain(),
                m0.packets.len() <= 0x1_0000,
                k + self@.packets.len() <= m0.packets.len() || !more,
                more ==> self@.stats.packets_lost <= m0.stats.packets_lost + k * 0x1_0000,
                more ==> self@.stats.packets_dropped <= m0.stats.packets_dropped + 2 * k,
                more ==> self@.stats.packets_received == m0.stats.packets_received,
                more ==> self@.stats.packets_reordered == m0.stats.packets_reordered,
                more ==> self@.stats.packets_duplicated == m0.stats.packets_duplicated,
                more ==> self@.stats.nack_requests == m0.stats.nack_requests,
                more ==> self@.stats.nack_recovered == m0.stats.nack_recovered,
                more ==> self@.pop_count <= m0.pop_count + k,
                more ==> self@.drift_check <= m0.drift_check + k,
                more ==> self@.drained(jitter_target_ms).0 == m0.drained(jitter_target_ms).0,
                more ==> models(v@) + self@.drained(jitter_target_ms).1 == m0.drained(
                    jitter_target_ms,
                ).1,
                !more ==> (self@, models(v@)) == m0.drained(jitter_target_ms),
            decreases
                    self@.packets.len() + if more {
                        1int
                    } else {
                        0int
                    },
        {
            let ghost before = self@;
            let ghost done = models(v@);
            proof {
                lemma_pop_step(before, jitter_target_ms);
            }
            match self.pop(jitter_target_ms) {
                Some(p) => {
                    v.push(p);
                    proof {
                        k = k + 1;
                        assert(models(v@) =~= done.push(p@));
                        let rest = self@.drained(jitter_target_ms).1;
                        assert(done + (seq![p@] + rest) =~= done.push(p@) + rest);
                    }
                },
                None => {
                    more = false;
                    assert(done + Seq::<PacketModel>::empty() =~= done);
                },
            }
        }
        v
    }

    /// The packet at `target`, or what follows from its absence.
    #[verifier::rlimit(60)]
    fn pop_at(&mut self, target: u16, jitter_target_ms: u32) -> (r: Option<RtpPacket>)
        requires
            old(self)@.wf(),
            old(self)@.stats.packets_dropped < u64::MAX,
            old(self)@.stats.packets_lost <= u64::MAX - 0x1_0000,
        ensures
            final(self)@ == old(self)@.popped_at(target, jitter_target_ms).0,
            match r {
                Some(p) => old(self)@.popped_at(target, jitter_target_ms).1 == Some(p@),
                None => old(self)@.popped_at(target, jitter_target_ms).1 is None,
            },
            final(self)@.wf(),
    {
        if let Some(packet) = self.remove_packet(target) {
            self.last_played = Some(target);
            self.stats.buffer_size = self.packets.len();
            self.consecutive_miss = 0;
            assert(self@ =~= old(self)@.played(target));
            if self.pop_count >= 250 {
                self.pop_count = 0;
                self.adapt_delay(jitter_target_ms);
            }
            self.check_drift();
            return Some(packet);
        }
        assert(self@ =~= old(self)@);
        if self.initial_buffering_done {
            if self.buffered_ms() < self.current_delay_ms / 2 {
                return None;
            }
        }
        self.consecutive_miss = self.consecutive_miss + 1;
        if self.consecutive_miss < self.config.max_wait_before_loss {
            return None;
        }
        self.consecutive_miss = 0;
        self.stats.packets_lost = self.stats.packets_lost + 1;
        self.last_played = Some(target);
        let ghost given_up = self@;
        if self.packets.len() > self.config.max_packets / 2 {
            let k: u16 = self.oldest_seq();
            proof {
                lemma_oldest(self@.packets);
            }
            let skipped: u16 = k.wrapping_sub(target.wrapping_add(1));
            assert(skipped == (k - target - 1) % 0x1_0000);
            if let Some(packet) = self.remove_packet(k) {
                if skipped < 0x8000 {
                    self.stats.packets_lost = self.stats.packets_lost + skipped as u64;
                }
                self.last_played = Some(k);
                self.stats.buffer_size = self.packets.len();
                assert(self@ =~= old(self)@.lost(target).0);
                return Some(packet);
            }
        }
        None
    }

    /// Counters, with the current delay.
    pub fn stats(&self) -> (s: JitterStats)
        ensures
            s == (JitterStats { buffer_delay_ms: self@.current_delay_ms, ..self@.stats }),
    {
        JitterStats { buffer_delay_ms: self.current_delay_ms, ..self.stats }
    }

    /// Whether the counters have room for one more packet.
    pub fn has_room(&self) -> (r: bool)
        ensures
            r == self@.has_room(),
    {
        let limit: u64 = u64::MAX - 0x2_0000;
        self.stats.packets_received <= limit && self.stats.packets_lost <= limit
            && self.stats.packets_dropped <= limit && self.stats.packets_reordered <= limit
            && self.stats.packets_duplicated <= limit && self.stats.nack_requests <= limit
            && self.stats.nack_recovered <= limit && self.pop_count < u32::MAX
            && self.drift_check_count < u32::MAX
    }

    /// Whether the counters have room to play all that is held.
    pub fn has_room_to_drain(&self) -> (r: bool)
        ensures
            r == self@.has_room_to_drain(),
    {
        let limit: u64 = u64::MAX - 0x10_0000_0000;
        self.has_room() && self.stats.packets_lost <= limit && self.stats.packets_dropped <= limit
            && self.pop_count <= u32::MAX - 0x2_0000 && self.drift_check_count <= u32::MAX - 0x2_0000
    }

    /// Whether playout may begin or has begun.
    pub fn is_ready(&self) -> (r: bool)
        ensures
            r == (self@.initial_buffering_done || self@.playout_started),
    {
        self.initial_buffering_done || self.playout_started
    }

    /// Forget the packets and the place in the stream, and fill again before
    /// playing. Called when a marker bit says that the stream starts over.
    pub fn reset_initial_buffering(&mut self)
        ensures
            final(self)@ == (JitterModel {
                initial_buffering_done: false,
                packets: Seq::empty(),
                last_played: None,
                next_sequence: None,
                stats: JitterStats { buffer_size: 0, ..old(self)@.stats },
                ..old(self)@
            }),
            old(self)@.wf() ==> final(self)@.wf(),
    {
        self.initial_buffering_done = false;
        self.packets.clear();
        self.stats.buffer_size = 0;
        self.last_played = None;
        self.next_sequence = None;
        assert(self@.packets =~= Seq::<PacketModel>::empty());
    }

    /// The last sequence number played.
    pub fn last_played_sequence(&self) -> (r: Option<u16>)
        ensures
            r == self@.last_played,
    {
        self.last_played
    }

    /// Take the list of retransmissions still worth asking for.
    pub fn pending_nacks(&mut self) -> (v: Vec<u16>)
        requires
            old(self)@.wf(),
        ensures
            v@ == old(self)@.nacks.filter(|k: u16| old(self)@.nack_wanted(k)),
            final(self)@ == (JitterModel { nacks: Seq::empty(), ..old(self)@ }),
            final(self)@.wf(),
    {
        let mut v: Vec<u16> = Vec::new();
        let mut i: usize = 0;
        let ghost keep = |k: u16| old(self)@.nack_wanted(k);
        assert(self.nack_list@.subrange(0, 0).filter(keep) =~= Seq::<u16>::empty());
        while i < self.nack_list.len()
            invariant
                i <= self.nack_list@.len(),
                *self == *old(self),
                self@.wf(),
                keep == (|k: u16| old(self)@.nack_wanted(k)),
                v@ == self.nack_list@.subrange(0, i as int).filter(keep),
            decreases self.nack_list@.len() - i,
        {
            let k: u16 = self.nack_list[i];
            let late: bool = match self.last_played {
                Some(l) => JitterBuffer::sequence_before(k, l) || k == l,
                None => false,
            };
            proof {
                let upto = self.nack_list@.subrange(0, i + 1);
                assert(upto.drop_last() =~= self.nack_list@.subrange(0, i as int));
                assert(upto.last() == k);
                reveal(Seq::filter);
                assert(keep(k) == old(self)@.nack_wanted(k));
            }
            if !self.contains_seq(k) && !late {
                v.push(k);
            }
            i += 1;
        }
        assert(self.nack_list@.subrange(0, i as int) =~= self.nack_list@);
        self.nack_list.clear();
        assert(self@ =~= (JitterModel { nacks: Seq::empty(), ..old(self)@ }));
        v
    }

    /// Take in the redundant blocks of a RED payload that fill gaps.
    pub fn process_redundancy(&mut self, packet: &RtpPacket)
        requires
            old(self)@.wf(),
            old(self)@.stats.nack_recovered + packet.payload@.len() / 4 <= u64::MAX,
        ensures
            final(self)@ == old(self)@.recovered(packet@),
            final(self)@.wf(),
    {
        let payload = packet.payload.as_slice();
        let mut blocks: Vec<RedBlock> = Vec::new();
        let mut offset: usize = 0;
        let ghost none = Seq::<RedBlock>::empty();
        while offset < payload.len() && payload[offset] >= 128
            invariant
                *self == *old(self),
                self@.wf(),
                payload@ == packet.payload@,
                offset <= payload@.len(),
                blocks@.len() * 4 == offset,
                forall|i: int| 0 <= i < blocks@.len() ==> (#[trigger] blocks@[i]).len <= 1023,
                red_headers(payload@, 0) == match red_headers(payload@, offset as int) {
                    None => None,
                    Some((rest, start)) => Some((blocks@ + rest, start)),
                },
            decreases payload@.len() - offset,
        {
            if payload.len() - offset < 4 {
                return ;
            }
            let b2: u8 = payload[offset + 2];
            let b = RedBlock {
                payload_type: payload[offset] % 128,
                timestamp_offset: payload[offset + 1] as u32 * 64 + (b2 / 4) as u32,
                len: (b2 % 4) as usize * 256 + payload[offset + 3] as usize,
            };
            assert(b == red_block(payload@, offset as int));
            let ghost before = blocks@;
            blocks.push(b);
            proof {
                match red_headers(payload@, offset + 4) {
                    None => {},
                    Some((rest, start)) => {
                        assert(before + (seq![b] + rest) =~= blocks@ + rest);
                    },
                }
            }
            offset += 4;
        }
        let data_start: usize = if offset < payload.len() {
            offset + 1
        } else {
            offset
        };
        assert(blocks@ + none =~= blocks@);
        assert(red_headers(payload@, 0) == Some((blocks@, data_start as int)));
        let mut start: u128 = data_start as u128;
        let mut i: usize = 0;
        while i < blocks.len()
            invariant
                payload@ == packet.payload@,
                payload@.len() <= usize::MAX,
                i <= blocks@.len(),
                blocks@.len() * 4 <= payload@.len(),
                data_start <= payload@.len(),
                start == data_start + red_len(blocks@, i as nat),
                start <= data_start + i * 1023,
                forall|j: int| 0 <= j < blocks@.len() ==> (#[trigger] blocks@[j]).len <= 1023,
                self@ == old(self)@.blocks_recovered(packet@, blocks@, data_start as int, i as nat),
                self@.wf(),
                self@.config == old(self)@.config,
                self@.stats.nack_recovered <= old(self)@.stats.nack_recovered + i,
                old(self)@.stats.nack_recovered + payload@.len() / 4 <= u64::MAX,
            decreases blocks@.len() - i,
        {
            let b: RedBlock = blocks[i];
            assert(i * 1023 <= blocks@.len() * 1023) by (nonlinear_arith)
                requires
                    i <= blocks@.len(),
            ;
            self.recover_block(packet, b, start);
            start = start + b.len as u128;
            i += 1;
        }
    }

    /// Take in one redundant block.
    #[verifier::rlimit(40)]
    fn recover_block(&mut self, packet: &RtpPacket, b: RedBlock, start: u128)
        requires
            old(self)@.wf(),
            start + b.len <= u128::MAX,
            old(self)@.stats.nack_recovered < u64::MAX,
        ensures
            final(self)@ == old(self)@.block_recovered(packet@, b, start as int),
            final(self)@.wf(),
            final(self)@.config == old(self)@.config,
            final(self)@.stats.nack_recovered <= old(self)@.stats.nack_recovered + 1,
    {
        let end: u128 = start + b.len as u128;
        if end > packet.payload.len() as u128 || self.config.samples_per_packet == 0 {
            return ;
        }
        let back: u32 = b.timestamp_offset / self.config.samples_per_packet;
        let seq: u16 = packet.header.sequence_number.wrapping_sub((back % 0x1_0000) as u16)
            .wrapping_sub(1);
        let timestamp: u32 = packet.header.timestamp.wrapping_sub(b.timestamp_offset);
        let late: bool = match self.last_played {
            Some(l) => JitterBuffer::sequence_before(seq, l) || seq == l,
            None => false,
        };
        if late || self.contains_seq(seq) {
            return ;
        }
        let mut header = packet.header.duplicate();
        header.sequence_number = seq;
        header.timestamp = timestamp;
        header.payload_type = b.payload_type;
        header.marker = false;
        let synthetic = RtpPacket {
            header,
            payload: copy_range(packet.payload.as_slice(), start as usize, end as usize),
        };
        assert(synthetic@ =~= self@.red_packet(
            packet@,
            b,
            packet@.payload.subrange(start as int, end as int),
        ));
        self.insert_packet(synthetic);
        self.stats.nack_recovered = self.stats.nack_recovered + 1;
        assert(self@ =~= old(self)@.block_recovered(packet@, b, start as int));
    }
}

} // verus!
