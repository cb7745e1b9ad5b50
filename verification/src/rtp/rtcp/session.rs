//! The control session of one stream: what was sent and received, and the
//! reports on it.
//!
//! Moments are nanoseconds of one monotonic clock. Estimates in fractions
//! (jitter, round trip, quality scores) are the caller's; they come in as whole
//! numbers, and their inputs go out.

use crate::rtp::jitter::JitterStep;
use crate::rtp::rtcp;
use crate::rtp::rtcp::{
    NtpTimestamp, ReceiverReport, ReportBlock, RtcpPacket, SenderReport, VoipMetrics,
    VoipMetricsBlock,
};
use crate::wire;
use vstd::prelude::*;
use vstd::string::*;

verus! {

/// A jump of this many sequence numbers starts the statistics anew.
pub const MAX_DROPOUT: u16 = 3000;

/// Packets up to this far behind are late, not a new start.
pub const MAX_MISORDER: u16 = 100;

/// Packets that the loss window holds.
pub const LOSS_WINDOW: usize = 256;

/// Longest round trip believed: 30 seconds, in microseconds.
pub const MAX_RTT_US: u64 = 30_000_000;

/// Scores of a stream, as extended reports carry them.
#[derive(Debug, Clone, Copy, PartialEq, Eq, Structural)]
pub struct QualityScores {
    /// Lost, in 256ths.
    pub loss_rate: u8,
    pub round_trip_ms: u16,
    /// 0 to 100, 127 for unknown.
    pub r_factor: u8,
    /// Ten times the score, 127 for unknown.
    pub mos: u8,
}

/// What control packets brought.
pub struct RtcpEvents {
    /// Someone else uses our source identifier.
    pub collision: bool,
    /// Round trips in nanoseconds, oldest first.
    pub rtt_samples: Vec<u64>,
}

/// The control session of one stream.
pub struct RtcpSession {
    pub local_ssrc: u32,
    pub cname: String,
    pub packets_sent: u32,
    pub octets_sent: u32,
    pub last_rtp_timestamp: u32,
    pub remote_ssrc: Option<u32>,
    pub packets_received: u32,
    pub expected_packets: u32,
    pub highest_ext_seq: u32,
    pub seq_cycles: u32,
    pub highest_seq: u16,
    pub first_packet_received: bool,
    pub base_seq: u32,
    pub last_recv_rtp_ts: u32,
    pub last_recv_time: Option<u64>,
    pub last_rr_packets_received: u32,
    pub last_rr_expected_packets: u32,
    pub last_sr_ntp_compact: u32,
    pub last_sr_received_at: Option<u64>,
    pub last_sr_sent_at: Option<u64>,
    pub clock_rate: u32,
    pub jb_nominal_ms: u16,
    pub jb_maximum_ms: u16,
    pub remote_voip_metrics: Option<VoipMetricsBlock>,
    pub rtcp_interval_ns: u64,
    pub last_rtcp_sent: u64,
    pub num_participants: u32,
    /// Whether each of the last packets came, the last one first.
    pub loss_window: [bool; 256],
    pub loss_window_len: usize,
    pub burst_density: u8,
    pub gap_density: u8,
}

/// A 32-bit number read as signed.
pub open spec fn signed32(x: u32) -> int {
    if x < 0x8000_0000 {
        x as int
    } else {
        x - 0x1_0000_0000
    }
}

fn to_signed32(x: u32) -> (r: i64)
    ensures
        r == signed32(x),
{
    if x < 0x8000_0000 {
        x as i64
    } else {
        x as i64 - 0x1_0000_0000
    }
}

/// Time from one moment to another, zero if the clock went back.
pub open spec fn elapsed(from: u64, now: u64) -> int {
    if now < from {
        0
    } else {
        now - from
    }
}

fn elapsed_ns(from: u64, now: u64) -> (r: u64)
    ensures
        r == elapsed(from, now),
{
    if now < from {
        0
    } else {
        now - from
    }
}

/// Packets lost among the first `n` of a window.
pub open spec fn lost_count(w: Seq<bool>, n: nat) -> nat
    decreases n,
{
    if n == 0 {
        0
    } else {
        lost_count(w, (n - 1) as nat) + if w[n - 1] {
            0nat
        } else {
            1nat
        }
    }
}

/// A packet that came between two that were lost.
pub open spec fn stands_alone(w: Seq<bool>, len: nat, i: int) -> bool {
    0 < i && i + 1 < len && w[i] && !w[i - 1] && !w[i + 1]
}

/// Packets among the first `n` that came between two that were lost.
pub open spec fn alone_count(w: Seq<bool>, len: nat, n: nat) -> nat
    decreases n,
{
    if n == 0 {
        0
    } else {
        alone_count(w, len, (n - 1) as nat) + if stands_alone(w, len, n - 1) {
            1nat
        } else {
            0nat
        }
    }
}

/// Losses within bursts, in 256ths: a burst goes on over a single packet that
/// came.
pub open spec fn burst_density_of(w: Seq<bool>, len: nat) -> u8 {
    let lost = lost_count(w, len);
    let all = lost + alone_count(w, len, len);
    if len < 2 || lost == 0 {
        0
    } else if lost * 256 / all > 255 {
        255
    } else {
        (lost * 256 / all) as u8
    }
}

impl RtcpSession {
    /// The loss window is no longer than it can be.
    pub open spec fn valid(self) -> bool {
        self.loss_window_len <= LOSS_WINDOW
    }

    /// Create a session with the default clock rate. The first report is due
    /// after half an interval.
    pub fn new(local_ssrc: u32, cname: String, interval_ns: u64, now_ns: u64) -> (s: RtcpSession)
        requires
            now_ns >= interval_ns / 2,
        ensures
            s.is_fresh(local_ssrc, cname@, 8000, interval_ns, now_ns),
    {
        RtcpSession::with_clock_rate(local_ssrc, cname, 8000, interval_ns, now_ns)
    }

    /// A session that has seen nothing.
    pub open spec fn is_fresh(
        self,
        local_ssrc: u32,
        cname: Seq<char>,
        clock_rate: u32,
        interval_ns: u64,
        now_ns: u64,
    ) -> bool {
        &&& self == (RtcpSession {
            local_ssrc,
            cname: self.cname,
            packets_sent: 0,
            octets_sent: 0,
            last_rtp_timestamp: 0,
            remote_ssrc: None,
            packets_received: 0,
            expected_packets: 0,
            highest_ext_seq: 0,
            seq_cycles: 0,
            highest_seq: 0,
            first_packet_received: false,
            base_seq: 0,
            last_recv_rtp_ts: 0,
            last_recv_time: None,
            last_rr_packets_received: 0,
            last_rr_expected_packets: 0,
            last_sr_ntp_compact: 0,
            last_sr_received_at: None,
            last_sr_sent_at: None,
            clock_rate,
            jb_nominal_ms: 0,
            jb_maximum_ms: 0,
            remote_voip_metrics: None,
            rtcp_interval_ns: interval_ns,
            last_rtcp_sent: (now_ns - interval_ns / 2) as u64,
            num_participants: 2,
            loss_window: self.loss_window,
            loss_window_len: 0,
            burst_density: 0,
            gap_density: 0,
        })
        &&& self.cname@ == cname
        &&& forall|i: int| 0 <= i < 256 ==> #[trigger] self.loss_window@[i]
        &&& self.valid()
    }

    /// Create a session with a clock rate. The first report is due after half
    /// an interval.
    pub fn with_clock_rate(
        local_ssrc: u32,
        cname: String,
        clock_rate: u32,
        interval_ns: u64,
        now_ns: u64,
    ) -> (s: RtcpSession)
        requires
            now_ns >= interval_ns / 2,
        ensures
            s.is_fresh(local_ssrc, cname@, clock_rate, interval_ns, now_ns),
    {
        RtcpSession {
            local_ssrc,
            cname,
            packets_sent: 0,
            octets_sent: 0,
            last_rtp_timestamp: 0,
            remote_ssrc: None,
            packets_received: 0,
            expected_packets: 0,
            highest_ext_seq: 0,
            seq_cycles: 0,
            highest_seq: 0,
            first_packet_received: false,
            base_seq: 0,
            last_recv_rtp_ts: 0,
            last_recv_time: None,
            last_rr_packets_received: 0,
            last_rr_expected_packets: 0,
            last_sr_ntp_compact: 0,
            last_sr_received_at: None,
            last_sr_sent_at: None,
            clock_rate,
            jb_nominal_ms: 0,
            jb_maximum_ms: 0,
            remote_voip_metrics: None,
            rtcp_interval_ns: interval_ns,
            last_rtcp_sent: now_ns - interval_ns / 2,
            num_participants: 2,
            loss_window: [true; 256],
            loss_window_len: 0,
            burst_density: 0,
            gap_density: 0,
        }
    }

    /// Set the number of participants, at least one, and the interval that
    /// follows from it.
    pub fn set_num_participants(&mut self, n: u32, interval_ns: u64)
        ensures
            *final(self) == (RtcpSession {
                num_participants: if n < 1 {
                    1
                } else {
                    n
                },
                rtcp_interval_ns: interval_ns,
                ..*old(self)
            }),
    {
        self.num_participants = if n < 1 {
            1
        } else {
            n
        };
        self.rtcp_interval_ns = interval_ns;
    }

    /// Note whether a packet came.
    pub fn record_loss_event(&mut self, received: bool)
        requires
            old(self).valid(),
        ensures
            final(self).valid(),
            final(self).loss_window@ == seq![received] + old(self).loss_window@.take(255),
            *final(self) == (RtcpSession {
                loss_window: final(self).loss_window,
                loss_window_len: if old(self).loss_window_len < 256 {
                    (old(self).loss_window_len + 1) as usize
                } else {
                    old(self).loss_window_len
                },
                burst_density: burst_density_of(
                    final(self).loss_window@,
                    final(self).loss_window_len as nat,
                ),
                gap_density: 0,
                ..*old(self)
            }),
    {
        let ghost w = self.loss_window@;
        let mut i: usize = 255;
        while i > 0
            invariant
                i <= 255,
                w == old(self).loss_window@,
                w.len() == 256,
                *self == (RtcpSession { loss_window: self.loss_window, ..*old(self) }),
                forall|k: int| 0 <= k <= i ==> #[trigger] self.loss_window@[k] == w[k],
                forall|k: int| i < k < 256 ==> #[trigger] self.loss_window@[k] == w[k - 1],
            decreases i,
        {
            self.loss_window[i] = self.loss_window[i - 1];
            i -= 1;
        }
        self.loss_window[0] = received;
        assert(self.loss_window@ =~= seq![received] + w.take(255));
        if self.loss_window_len < 256 {
            self.loss_window_len = self.loss_window_len + 1;
        }
        self.compute_burst_gap_density();
    }

    fn compute_burst_gap_density(&mut self)
        requires
            old(self).valid(),
        ensures
            *final(self) == (RtcpSession {
                burst_density: burst_density_of(
                    old(self).loss_window@,
                    old(self).loss_window_len as nat,
                ),
                gap_density: 0,
                ..*old(self)
            }),
    {
        let len: usize = self.loss_window_len;
        self.gap_density = 0;
        if len < 2 {
            self.burst_density = 0;
            return ;
        }
        let mut lost: u32 = 0;
        let mut alone: u32 = 0;
        let mut i: usize = 0;
        while i < len
            invariant
                i <= len <= 256,
                *self == (RtcpSession { gap_density: 0, ..*old(self) }),
                self.loss_window@.len() == 256,
                lost == lost_count(self.loss_window@, i as nat),
                alone == alone_count(self.loss_window@, len as nat, i as nat),
                lost + alone <= i,
            decreases len - i,
        {
            if !self.loss_window[i] {
                lost += 1;
            } else if i > 0 && i + 1 < len && !self.loss_window[i - 1] && !self.loss_window[i + 1] {
                alone += 1;
            }
            i += 1;
        }
        self.burst_density = if lost == 0 {
            0
        } else {
            let scaled: u32 = lost * 256 / (lost + alone);
            if scaled > 255 {
                255
            } else {
                scaled as u8
            }
        };
    }

    /// Note a packet that was sent.
    pub fn record_rtp_sent(&mut self, payload_bytes: u32, rtp_timestamp: u32)
        requires
            old(self).packets_sent < u32::MAX,
            old(self).octets_sent + payload_bytes <= u32::MAX,
        ensures
            *final(self) == (RtcpSession {
                packets_sent: (old(self).packets_sent + 1) as u32,
                octets_sent: (old(self).octets_sent + payload_bytes) as u32,
                last_rtp_timestamp: rtp_timestamp,
                ..*old(self)
            }),
    {
        self.packets_sent = self.packets_sent + 1;
        self.octets_sent = self.octets_sent + payload_bytes;
        self.last_rtp_timestamp = rtp_timestamp;
    }

    /// The session with the receiver's side forgotten.
    pub open spec fn receiver_reset(self, new_ssrc: u32) -> RtcpSession {
        RtcpSession {
            remote_ssrc: Some(new_ssrc),
            packets_received: 0,
            expected_packets: 0,
            highest_ext_seq: 0,
            seq_cycles: 0,
            highest_seq: 0,
            first_packet_received: false,
            base_seq: 0,
            last_recv_rtp_ts: 0,
            last_recv_time: None,
            last_rr_packets_received: 0,
            last_rr_expected_packets: 0,
            last_sr_ntp_compact: 0,
            last_sr_received_at: None,
            ..self
        }
    }

    /// Forget the receiver's side: the source has changed.
    pub fn reset_receiver(&mut self, new_ssrc: u32)
        ensures
            *final(self) == old(self).receiver_reset(new_ssrc),
    {
        self.remote_ssrc = Some(new_ssrc);
        self.packets_received = 0;
        self.expected_packets = 0;
        self.highest_ext_seq = 0;
        self.seq_cycles = 0;
        self.highest_seq = 0;
        self.first_packet_received = false;
        self.base_seq = 0;
        self.last_recv_rtp_ts = 0;
        self.last_recv_time = None;
        self.last_rr_packets_received = 0;
        self.last_rr_expected_packets = 0;
        self.last_sr_ntp_compact = 0;
        self.last_sr_received_at = None;
    }

    /// Whether a packet comes from a new source.
    pub open spec fn source_changed(self, ssrc: u32) -> bool {
        self.remote_ssrc is Some && self.remote_ssrc != Some(ssrc)
    }

    /// The session with a packet's source known.
    pub open spec fn with_source(self, ssrc: u32) -> RtcpSession {
        if self.source_changed(ssrc) {
            self.receiver_reset(ssrc)
        } else {
            RtcpSession { remote_ssrc: Some(ssrc), ..self }
        }
    }

    /// The packet counted and its sequence number placed: the first starts the
    /// count; one a little ahead moves it, over the wrap if need be; one far
    /// ahead starts it anew; one a little behind is late.
    pub open spec fn with_sequence(self, seq: u16) -> RtcpSession {
        let n = (self.packets_received + 1) as u32;
        let ahead = seq.wrapping_sub(self.highest_seq);
        if !self.first_packet_received {
            RtcpSession {
                packets_received: n,
                base_seq: seq as u32,
                highest_seq: seq,
                seq_cycles: 0,
                first_packet_received: true,
                ..self
            }
        } else if ahead < MAX_DROPOUT {
            RtcpSession {
                packets_received: n,
                seq_cycles: if seq < self.highest_seq {
                    (self.seq_cycles + 1) as u32
                } else {
                    self.seq_cycles
                },
                highest_seq: seq,
                ..self
            }
        } else if ahead <= 0xFFFF - MAX_MISORDER {
            RtcpSession {
                base_seq: seq as u32,
                highest_seq: seq,
                seq_cycles: 0,
                packets_received: 1,
                last_rr_packets_received: 0,
                last_rr_expected_packets: 0,
                ..self
            }
        } else {
            RtcpSession { packets_received: n, ..self }
        }
    }

    /// The highest sequence number with its wraps.
    pub open spec fn extended(self) -> u32 {
        ((self.seq_cycles % 0x1_0000) * 0x1_0000 + self.highest_seq) as u32
    }

    /// Packets expected so far.
    pub open spec fn expected(self) -> int {
        if self.extended() < self.base_seq {
            1
        } else {
            self.extended() - self.base_seq + 1
        }
    }

    /// A packet taken in.
    pub open spec fn received(self, ssrc: u32, seq: u16, ts: u32, now_ns: u64) -> RtcpSession {
        let s = self.with_source(ssrc).with_sequence(seq);
        RtcpSession {
            highest_ext_seq: s.extended(),
            expected_packets: s.expected() as u32,
            last_recv_rtp_ts: ts,
            last_recv_time: Some(now_ns),
            ..s
        }
    }

    /// How far the spacing of two packets is from that of their timestamps, in
    /// timestamp units.
    pub open spec fn deviation(self, ts: u32, now_ns: u64) -> int {
        let arrival = (elapsed(self.last_recv_time->Some_0, now_ns) / 1000) * self.clock_rate
            / 1_000_000;
        let d = arrival - signed32(ts.wrapping_sub(self.last_recv_rtp_ts));
        if d < 0 {
            -d
        } else {
            d
        }
    }

    /// What a packet does to the jitter.
    pub open spec fn jitter_step(self, ssrc: u32, ts: u32, now_ns: u64) -> JitterStep {
        if self.source_changed(ssrc) {
            JitterStep::Reset
        } else if self.last_recv_time is Some {
            JitterStep::Deviation(self.deviation(ts, now_ns) as u64)
        } else {
            JitterStep::Unchanged
        }
    }

    /// The counters have room for a packet.
    pub open spec fn can_receive(self, ssrc: u32, seq: u16, now_ns: u64) -> bool {
        let k = self.with_source(ssrc);
        &&& k.packets_received < u32::MAX
        &&& k.seq_cycles < u32::MAX
        &&& k.with_sequence(seq).expected() <= u32::MAX
        &&& k.last_recv_time matches Some(t) ==> (elapsed(t, now_ns) / 1000) * k.clock_rate
            <= i64::MAX
    }

    /// Whether the counters have room for a packet.
    pub fn ready_for(&self, ssrc: u32, seq: u16, now_ns: u64) -> (r: bool)
        ensures
            r == self.can_receive(ssrc, seq, now_ns),
    {
        let changed: bool = match self.remote_ssrc {
            Some(s) => s != ssrc,
            None => false,
        };
        if changed {
            return true;
        }
        if self.packets_received == u32::MAX || self.seq_cycles == u32::MAX {
            return false;
        }
        if let Some(t) = self.last_recv_time {
            let us: u128 = (elapsed_ns(t, now_ns) / 1000) as u128;
            assert(0 <= us * self.clock_rate <= u64::MAX * u32::MAX) by (nonlinear_arith)
                requires
                    0 <= us <= u64::MAX,
                    0 <= self.clock_rate <= u32::MAX,
            ;
            if us * self.clock_rate as u128 > i64::MAX as u128 {
                return false;
            }
        }
        let ahead: u16 = seq.wrapping_sub(self.highest_seq);
        if !self.first_packet_received || (ahead >= MAX_DROPOUT && ahead <= 0xFFFF - MAX_MISORDER) {
            return true;
        }
        let cycles: u32 = if ahead < MAX_DROPOUT && seq < self.highest_seq {
            self.seq_cycles + 1
        } else {
            self.seq_cycles
        };
        let highest: u16 = if ahead < MAX_DROPOUT {
            seq
        } else {
            self.highest_seq
        };
        let extended: u64 = (cycles % 0x1_0000) as u64 * 0x1_0000 + highest as u64;
        extended < self.base_seq as u64 || extended - (self.base_seq as u64) < u32::MAX as u64
    }

    fn place_sequence(&mut self, seq: u16)
        requires
            old(self).packets_received < u32::MAX,
            old(self).seq_cycles < u32::MAX,
        ensures
            *final(self) == old(self).with_sequence(seq),
    {
        self.packets_received = self.packets_received + 1;
        if !self.first_packet_received {
            self.base_seq = seq as u32;
            self.highest_seq = seq;
            self.seq_cycles = 0;
            self.first_packet_received = true;
            return ;
        }
        let ahead: u16 = seq.wrapping_sub(self.highest_seq);
        if ahead < MAX_DROPOUT {
            if seq < self.highest_seq {
                self.seq_cycles = self.seq_cycles + 1;
            }
            self.highest_seq = seq;
        } else if ahead <= 0xFFFF - MAX_MISORDER {
            self.base_seq = seq as u32;
            self.highest_seq = seq;
            self.seq_cycles = 0;
            self.packets_received = 1;
            self.last_rr_packets_received = 0;
            self.last_rr_expected_packets = 0;
        }
    }

    fn measure_deviation(&self, last: u64, ts: u32, now_ns: u64) -> (d: u64)
        requires
            self.last_recv_time == Some(last),
            (elapsed(last, now_ns) / 1000) * self.clock_rate <= i64::MAX,
        ensures
            d == self.deviation(ts, now_ns),
    {
        let us: u64 = elapsed_ns(last, now_ns) / 1000;
        assert(0 <= us * self.clock_rate) by (nonlinear_arith)
            requires
                us >= 0,
                self.clock_rate >= 0,
        ;
        let arrival: i64 = (us * self.clock_rate as u64 / 1_000_000) as i64;
        let spacing: i64 = to_signed32(ts.wrapping_sub(self.last_recv_rtp_ts));
        let d: i64 = arrival - spacing;
        (if d < 0 {
            -d
        } else {
            d
        }) as u64
    }

    /// Note a packet that came at `now_ns`: counts losses, and says what it
    /// means for the jitter.
    pub fn record_rtp_received(&mut self, ssrc: u32, seq: u16, rtp_timestamp: u32, now_ns: u64) -> (
        step: JitterStep)
        requires
            old(self).can_receive(ssrc, seq, now_ns),
        ensures
            *final(self) == old(self).received(ssrc, seq, rtp_timestamp, now_ns),
            step == old(self).jitter_step(ssrc, rtp_timestamp, now_ns),
    {
        let mut changed: bool = false;
        match self.remote_ssrc {
            Some(s) => {
                if s != ssrc {
                    self.reset_receiver(ssrc);
                    changed = true;
                }
            },
            None => {
                self.remote_ssrc = Some(ssrc);
            },
        }
        assert(*self == old(self).with_source(ssrc));
        let step = if changed {
            JitterStep::Reset
        } else {
            match self.last_recv_time {
                Some(last) => JitterStep::Deviation(
                    self.measure_deviation(last, rtp_timestamp, now_ns),
                ),
                None => JitterStep::Unchanged,
            }
        };
        self.place_sequence(seq);
        self.highest_ext_seq = (self.seq_cycles % 0x1_0000) * 0x1_0000 + self.highest_seq as u32;
        self.expected_packets = if self.highest_ext_seq < self.base_seq {
            1
        } else {
            self.highest_ext_seq - self.base_seq + 1
        };
        self.last_recv_rtp_ts = rtp_timestamp;
        self.last_recv_time = Some(now_ns);
        step
    }
}

// ---------------------------------------------------------------------------
// Incoming reports
// ---------------------------------------------------------------------------

impl RtcpSession {
    /// The round trip that a block shows, in nanoseconds: the time since our
    /// report went out without the time that it lay at the other side. Where
    /// none went out, the clock times in the block tell. Longer ones than 30
    /// seconds are not believed.
    pub open spec fn rtt_of(self, rb: ReportBlock, now_ns: u64, now_compact: u32) -> Option<u64> {
        let lay = (rb.delay_since_last_sr * 1_000_000 / 0x1_0000) * 1000;
        let trip = match self.last_sr_sent_at {
            Some(sent) => elapsed(sent, now_ns) - lay,
            None => (now_compact.wrapping_sub(rb.last_sr).wrapping_sub(rb.delay_since_last_sr)
                * 1_000_000 / 0x1_0000) * 1000,
        };
        if trip < 0 || trip / 1000 >= MAX_RTT_US {
            None
        } else {
            Some(trip as u64)
        }
    }

    /// Whether a block answers one of our reports.
    pub open spec fn answers(self, rb: ReportBlock) -> bool {
        rb.ssrc == self.local_ssrc && rb.last_sr != 0
    }

    /// The round trips in the blocks that answer our reports.
    pub open spec fn rtts_of(
        self,
        blocks: Seq<ReportBlock>,
        now_ns: u64,
        now_compact: u32,
    ) -> Seq<u64>
        decreases blocks.len(),
    {
        if blocks.len() == 0 {
            Seq::empty()
        } else {
            let before = self.rtts_of(blocks.drop_last(), now_ns, now_compact);
            match self.rtt_of(blocks.last(), now_ns, now_compact) {
                Some(t) if self.answers(blocks.last()) => before.push(t),
                _ => before,
            }
        }
    }

    /// The blocks of a report.
    pub open spec fn blocks_in(p: rtcp::RtcpModel) -> Seq<ReportBlock> {
        match p {
            rtcp::RtcpModel::SenderReport { blocks, .. } => blocks,
            rtcp::RtcpModel::ReceiverReport { blocks, .. } => blocks,
            _ => Seq::empty(),
        }
    }

    /// Whether a report comes under our identifier.
    pub open spec fn collides(self, p: rtcp::RtcpModel) -> bool {
        match p {
            rtcp::RtcpModel::SenderReport { ssrc, .. } => ssrc == self.local_ssrc,
            rtcp::RtcpModel::ReceiverReport { ssrc, .. } => ssrc == self.local_ssrc,
            _ => false,
        }
    }

    /// The session after one control packet.
    pub open spec fn informed(self, p: rtcp::RtcpModel, now_ns: u64) -> RtcpSession {
        match p {
            rtcp::RtcpModel::SenderReport { ntp, .. } => RtcpSession {
                last_sr_ntp_compact: ntp.middle(),
                last_sr_received_at: Some(now_ns),
                ..self
            },
            rtcp::RtcpModel::ExtendedReport { metrics: Some(m), .. } => RtcpSession {
                remote_voip_metrics: Some(m),
                ..self
            },
            _ => self,
        }
    }

    /// The session after a run of control packets.
    pub open spec fn informed_all(self, ps: Seq<rtcp::RtcpModel>, now_ns: u64) -> RtcpSession
        decreases ps.len(),
    {
        if ps.len() == 0 {
            self
        } else {
            self.informed_all(ps.drop_last(), now_ns).informed(ps.last(), now_ns)
        }
    }

    /// The round trips in a run of control packets.
    pub open spec fn rtts_in(
        self,
        ps: Seq<rtcp::RtcpModel>,
        now_ns: u64,
        now_compact: u32,
    ) -> Seq<u64>
        decreases ps.len(),
    {
        if ps.len() == 0 {
            Seq::empty()
        } else {
            self.rtts_in(ps.drop_last(), now_ns, now_compact) + self.rtts_of(
                RtcpSession::blocks_in(ps.last()),
                now_ns,
                now_compact,
            )
        }
    }

    fn calculate_rtt(&self, rb: &ReportBlock, now_ns: u64, now_compact: u32) -> (r: Option<u64>)
        ensures
            r == self.rtt_of(*rb, now_ns, now_compact),
    {
        match self.last_sr_sent_at {
            Some(sent) => {
                let lay: u64 = (rb.delay_since_last_sr as u64 * 1_000_000 / 0x1_0000) * 1000;
                let since: u64 = elapsed_ns(sent, now_ns);
                if since < lay || (since - lay) / 1000 >= MAX_RTT_US {
                    None
                } else {
                    Some(since - lay)
                }
            },
            None => {
                let units: u32 = now_compact.wrapping_sub(rb.last_sr).wrapping_sub(
                    rb.delay_since_last_sr,
                );
                let trip: u64 = (units as u64 * 1_000_000 / 0x1_0000) * 1000;
                if trip / 1000 >= MAX_RTT_US {
                    None
                } else {
                    Some(trip)
                }
            },
        }
    }

    fn collect_rtts(
        &self,
        blocks: &Vec<ReportBlock>,
        now_ns: u64,
        now_compact: u32,
        samples: &mut Vec<u64>,
    )
        ensures
            final(samples)@ == old(samples)@ + self.rtts_of(blocks@, now_ns, now_compact),
    {
        let mut i: usize = 0;
        assert(samples@ =~= old(samples)@ + self.rtts_of(blocks@.take(0), now_ns, now_compact));
        while i < blocks.len()
            invariant
                i <= blocks@.len(),
                samples@ == old(samples)@ + self.rtts_of(
                    blocks@.take(i as int),
                    now_ns,
                    now_compact,
                ),
            decreases blocks@.len() - i,
        {
            let rb = blocks[i];
            assert(blocks@.take(i + 1).drop_last() =~= blocks@.take(i as int));
            if rb.ssrc == self.local_ssrc && rb.last_sr != 0 {
                match self.calculate_rtt(&rb, now_ns, now_compact) {
                    Some(t) => {
                        samples.push(t);
                    },
                    None => {},
                }
            }
            i += 1;
            assert(samples@ =~= old(samples)@ + self.rtts_of(
                blocks@.take(i as int),
                now_ns,
                now_compact,
            ));
        }
        assert(blocks@.take(i as int) =~= blocks@);
    }

    fn take_in(
        &mut self,
        p: &RtcpPacket,
        now_ns: u64,
        now_compact: u32,
        samples: &mut Vec<u64>,
    ) -> (collision: bool)
        ensures
            *final(self) == old(self).informed(p@, now_ns),
            final(samples)@ == old(samples)@ + old(self).rtts_of(
                RtcpSession::blocks_in(p@),
                now_ns,
                now_compact,
            ),
            collision == old(self).collides(p@),
    {
        match p {
            RtcpPacket::SenderReport(sr) => {
                self.collect_rtts(&sr.report_blocks, now_ns, now_compact, samples);
                self.last_sr_ntp_compact = sr.ntp_timestamp.compact();
                self.last_sr_received_at = Some(now_ns);
                sr.ssrc == self.local_ssrc
            },
            RtcpPacket::ReceiverReport(rr) => {
                self.collect_rtts(&rr.report_blocks, now_ns, now_compact, samples);
                rr.ssrc == self.local_ssrc
            },
            RtcpPacket::ExtendedReport(xr) => {
                assert(samples@ =~= old(samples)@ + Seq::<u64>::empty());
                match xr.voip_metrics {
                    Some(m) => {
                        self.remote_voip_metrics = Some(m);
                    },
                    None => {},
                }
                false
            },
            _ => {
                assert(samples@ =~= old(samples)@ + Seq::<u64>::empty());
                false
            },
        }
    }

    proof fn lemma_informed_keeps(self, ps: Seq<rtcp::RtcpModel>, now_ns: u64)
        ensures
            self.informed_all(ps, now_ns).local_ssrc == self.local_ssrc,
            self.informed_all(ps, now_ns).last_sr_sent_at == self.last_sr_sent_at,
        decreases ps.len(),
    {
        if ps.len() > 0 {
            self.lemma_informed_keeps(ps.drop_last(), now_ns);
        }
    }

    proof fn lemma_rtts_same(
        self,
        other: RtcpSession,
        blocks: Seq<ReportBlock>,
        now_ns: u64,
        now_compact: u32,
    )
        requires
            self.local_ssrc == other.local_ssrc,
            self.last_sr_sent_at == other.last_sr_sent_at,
        ensures
            self.rtts_of(blocks, now_ns, now_compact) == other.rtts_of(
                blocks,
                now_ns,
                now_compact,
            ),
        decreases blocks.len(),
    {
        if blocks.len() > 0 {
            self.lemma_rtts_same(other, blocks.drop_last(), now_ns, now_compact);
        }
    }

    /// Take in control packets that came at `now_ns`, when the clock showed
    /// `now_ntp`.
    pub fn process_incoming_rtcp(&mut self, data: &[u8], now_ns: u64, now_ntp: NtpTimestamp) -> (
        events: RtcpEvents)
        ensures
            *final(self) == old(self).informed_all(rtcp::parsed_compound(data@), now_ns),
            events.rtt_samples@ == old(self).rtts_in(
                rtcp::parsed_compound(data@),
                now_ns,
                now_ntp.middle(),
            ),
            events.collision == exists|i: int|
                0 <= i < rtcp::parsed_compound(data@).len() && old(self).collides(
                    #[trigger] rtcp::parsed_compound(data@)[i],
                ),
    {
        let packets = rtcp::parse_rtcp_compound(data);
        let now_compact: u32 = now_ntp.compact();
        let mut samples: Vec<u64> = Vec::new();
        let mut collision: bool = false;
        let ghost ps = rtcp::parsed_compound(data@);
        let mut i: usize = 0;
        assert(ps.take(0) =~= Seq::empty());
        while i < packets.len()
            invariant
                i <= packets@.len(),
                ps == rtcp::packets_of(packets@),
                *self == old(self).informed_all(ps.take(i as int), now_ns),
                self.local_ssrc == old(self).local_ssrc,
                self.last_sr_sent_at == old(self).last_sr_sent_at,
                samples@ == old(self).rtts_in(ps.take(i as int), now_ns, now_compact),
                collision == exists|k: int|
                    0 <= k < i && old(self).collides(#[trigger] ps[k]),
            decreases packets@.len() - i,
        {
            let ghost before = *self;
            let clash: bool = self.take_in(&packets[i], now_ns, now_compact, &mut samples);
            proof {
                assert(ps.take(i + 1).drop_last() =~= ps.take(i as int));
                assert(ps.take(i + 1).last() == packets@[i as int]@);
                assert(ps[i as int] == packets@[i as int]@);
                before.lemma_rtts_same(
                    *old(self),
                    RtcpSession::blocks_in(ps[i as int]),
                    now_ns,
                    now_compact,
                );
            }
            collision = collision || clash;
            i += 1;
            proof {
                old(self).lemma_informed_keeps(ps.take(i as int), now_ns);
                if collision {
                    if clash {
                        assert(old(self).collides(ps[i - 1]));
                    } else {
                        let k = choose|k: int|
                            0 <= k < i - 1 && old(self).collides(#[trigger] ps[k]);
                        assert(old(self).collides(ps[k]));
                    }
                }
            }
        }
        assert(ps.take(i as int) =~= ps);
        RtcpEvents { collision, rtt_samples: samples }
    }
}

// ---------------------------------------------------------------------------
// Outgoing reports
// ---------------------------------------------------------------------------

/// Time in 65536ths of a second, at most 65535 whole seconds.
pub open spec fn dlsr_units(ns: int) -> int {
    (if ns / 1_000_000_000 > 65535 {
        65535
    } else {
        ns / 1_000_000_000
    }) * 0x1_0000 + (ns % 1_000_000_000 / 1000) * 0x1_0000 / 1_000_000
}

/// Whether a number fits in 32 bits with sign.
pub open spec fn in_i32(x: int) -> bool {
    i32::MIN <= x <= i32::MAX
}

impl RtcpSession {
    /// Packets expected since the last report.
    pub open spec fn expected_interval(self) -> u32 {
        if self.expected_packets < self.last_rr_expected_packets {
            0
        } else {
            (self.expected_packets - self.last_rr_expected_packets) as u32
        }
    }

    /// Packets received since the last report.
    pub open spec fn received_interval(self) -> u32 {
        if self.packets_received < self.last_rr_packets_received {
            0
        } else {
            (self.packets_received - self.last_rr_packets_received) as u32
        }
    }

    /// Packets lost in all.
    pub open spec fn lost(self) -> int {
        signed32(self.expected_packets) - signed32(self.packets_received)
    }

    /// Packets lost since the last report.
    pub open spec fn lost_interval(self) -> int {
        signed32(self.expected_interval()) - signed32(self.received_interval())
    }

    /// The counts of losses are in range.
    pub open spec fn reportable(self) -> bool {
        in_i32(self.lost()) && in_i32(self.lost_interval())
    }

    /// Losses since the last report, in 256ths.
    pub open spec fn fraction_lost(self) -> u8 {
        if self.expected_interval() == 0 || self.lost_interval() <= 0 {
            0
        } else {
            let f = self.lost_interval() * 256 / (self.expected_interval() as int);
            if f > 255 {
                255
            } else {
                f as u8
            }
        }
    }

    /// The loss in all, kept within 24 bits.
    pub open spec fn cumulative_lost(self) -> i32 {
        (if self.lost() < -0x7F_FFFF {
            -0x7F_FFFF
        } else if self.lost() > 0x7F_FFFF {
            0x7F_FFFF
        } else {
            self.lost()
        }) as i32
    }

    /// The block on the source that is heard.
    pub open spec fn report_block(self, jitter: u32, now_ns: u64) -> ReportBlock {
        ReportBlock {
            ssrc: self.remote_ssrc->Some_0,
            fraction_lost: self.fraction_lost(),
            cumulative_lost: self.cumulative_lost(),
            extended_highest_seq: self.highest_ext_seq,
            jitter,
            last_sr: self.last_sr_ntp_compact,
            delay_since_last_sr: match self.last_sr_received_at {
                Some(t) => dlsr_units(elapsed(t, now_ns)) as u32,
                None => 0,
            },
        }
    }

    /// The blocks of a report: one, if a source is heard.
    pub open spec fn report_blocks(self, jitter: u32, now_ns: u64) -> Seq<ReportBlock> {
        if self.remote_ssrc is None {
            Seq::empty()
        } else {
            seq![self.report_block(jitter, now_ns)]
        }
    }

    fn build_report_blocks(&self, jitter: u32, now_ns: u64) -> (v: Vec<ReportBlock>)
        requires
            self.reportable(),
        ensures
            v@ == self.report_blocks(jitter, now_ns),
    {
        let mut v: Vec<ReportBlock> = Vec::new();
        let ssrc: u32 = match self.remote_ssrc {
            Some(s) => s,
            None => {
                return v;
            },
        };
        let lost: i64 = to_signed32(self.expected_packets) - to_signed32(self.packets_received);
        let cumulative_lost: i32 = if lost < -0x7F_FFFF {
            -0x7F_FFFF
        } else if lost > 0x7F_FFFF {
            0x7F_FFFF
        } else {
            lost as i32
        };
        let expected: u32 = self.expected_packets.saturating_sub(self.last_rr_expected_packets);
        let received: u32 = self.packets_received.saturating_sub(self.last_rr_packets_received);
        let lost_interval: i64 = to_signed32(expected) - to_signed32(received);
        let fraction_lost: u8 = if expected == 0 || lost_interval <= 0 {
            0
        } else {
            let f: u64 = lost_interval as u64 * 256 / expected as u64;
            if f > 255 {
                255
            } else {
                f as u8
            }
        };
        let delay_since_last_sr: u32 = match self.last_sr_received_at {
            Some(t) => {
                let ns: u64 = elapsed_ns(t, now_ns);
                let secs: u64 = if ns / 1_000_000_000 > 65535 {
                    65535
                } else {
                    ns / 1_000_000_000
                };
                (secs * 0x1_0000 + (ns % 1_000_000_000 / 1000) * 0x1_0000 / 1_000_000) as u32
            },
            None => 0,
        };
        v.push(
            ReportBlock {
                ssrc,
                fraction_lost,
                cumulative_lost,
                extended_highest_seq: self.highest_ext_seq,
                jitter,
                last_sr: self.last_sr_ntp_compact,
                delay_since_last_sr,
            },
        );
        assert(v@ =~= self.report_blocks(jitter, now_ns));
        v
    }

    /// The voice metrics that extended reports carry.
    pub open spec fn voice_metrics(self, q: QualityScores) -> VoipMetrics {
        VoipMetrics {
            loss_rate: q.loss_rate,
            round_trip_delay: q.round_trip_ms,
            end_system_delay: self.jb_nominal_ms,
            signal_level: 127,
            noise_level: 127,
            rerl: 127,
            gmin: 16,
            r_factor: q.r_factor,
            ext_r_factor: 127,
            mos_lq: q.mos,
            mos_cq: q.mos,
            jb_nominal: self.jb_nominal_ms,
            jb_maximum: self.jb_maximum_ms,
            jb_abs_max: if self.jb_maximum_ms > 0 {
                self.jb_maximum_ms
            } else {
                1000
            },
            ..VoipMetrics::zero()
        }
    }

    fn metrics(&self, q: QualityScores) -> (m: VoipMetrics)
        ensures
            m == self.voice_metrics(q),
    {
        VoipMetrics {
            loss_rate: q.loss_rate,
            discard_rate: 0,
            burst_density: 0,
            gap_density: 0,
            burst_duration: 0,
            gap_duration: 0,
            round_trip_delay: q.round_trip_ms,
            end_system_delay: self.jb_nominal_ms,
            signal_level: 127,
            noise_level: 127,
            rerl: 127,
            gmin: 16,
            r_factor: q.r_factor,
            ext_r_factor: 127,
            mos_lq: q.mos,
            mos_cq: q.mos,
            rx_config: 0,
            jb_nominal: self.jb_nominal_ms,
            jb_maximum: self.jb_maximum_ms,
            jb_abs_max: if self.jb_maximum_ms > 0 {
                self.jb_maximum_ms
            } else {
                1000
            },
        }
    }

    /// Whether a report is due.
    pub fn should_send_rtcp(&self, now_ns: u64) -> (r: bool)
        ensures
            r == (elapsed(self.last_rtcp_sent, now_ns) >= self.rtcp_interval_ns),
    {
        elapsed_ns(self.last_rtcp_sent, now_ns) >= self.rtcp_interval_ns
    }

    /// The report with the source description: a sender's once something was
    /// sent, else a receiver's.
    pub open spec fn report_bytes(self, jitter: u32, now_ns: u64, ntp: NtpTimestamp) -> Seq<u8> {
        let blocks = self.report_blocks(jitter, now_ns);
        let name = rtcp::sdes_bytes(self.local_ssrc, rtcp::utf8_of(self.cname@));
        if self.packets_sent > 0 {
            rtcp::sender_report_bytes(
                self.local_ssrc,
                ntp,
                self.last_rtp_timestamp,
                self.packets_sent,
                self.octets_sent,
                blocks,
            ) + name
        } else {
            rtcp::receiver_report_bytes(self.local_ssrc, blocks) + name
        }
    }

    /// Bytes of the report with the source description.
    pub open spec fn report_len(self) -> int {
        (if self.packets_sent > 0 {
            36int
        } else {
            16int
        }) + (if self.remote_ssrc is Some {
            24int
        } else {
            0int
        }) + rtcp::round_up(rtcp::item_bytes(rtcp::utf8_of(self.cname@)).len() + 3)
    }

    /// Whether an extended report follows: a source is heard, and 48 bytes are
    /// left.
    pub open spec fn has_xr(self, room: nat) -> bool {
        self.remote_ssrc is Some && self.report_len() + 48 <= room
    }

    /// The whole compound packet.
    pub open spec fn compound_bytes(
        self,
        jitter: u32,
        q: QualityScores,
        now_ns: u64,
        ntp: NtpTimestamp,
        room: nat,
    ) -> Seq<u8> {
        self.report_bytes(jitter, now_ns, ntp) + if self.has_xr(room) {
            rtcp::xr_bytes(self.local_ssrc, self.remote_ssrc->Some_0, self.voice_metrics(q))
        } else {
            Seq::empty()
        }
    }

    /// The session after a report.
    pub open spec fn reported(self, interval_ns: u64, now_ns: u64) -> RtcpSession {
        RtcpSession {
            last_sr_sent_at: if self.packets_sent > 0 {
                Some(now_ns)
            } else {
                self.last_sr_sent_at
            },
            last_rtcp_sent: now_ns,
            rtcp_interval_ns: interval_ns,
            last_rr_packets_received: self.packets_received,
            last_rr_expected_packets: self.expected_packets,
            ..self
        }
    }

    /// Whether the counts of losses are in range, and a report fits in so many
    /// bytes.
    pub fn can_report(&self, room: usize) -> (r: bool)
        ensures
            r == (self.reportable() && room >= self.report_len()),
    {
        let name = rtcp::encode_sdes(self.local_ssrc, self.cname.as_str());
        let fixed: usize = (if self.packets_sent > 0 {
            28
        } else {
            8
        }) + (if self.remote_ssrc.is_some() {
            24
        } else {
            0
        });
        let lost: i64 = to_signed32(self.expected_packets) - to_signed32(self.packets_received);
        let expected: u32 = self.expected_packets.saturating_sub(self.last_rr_expected_packets);
        let received: u32 = self.packets_received.saturating_sub(self.last_rr_packets_received);
        let lately: i64 = to_signed32(expected) - to_signed32(received);
        lost >= i32::MIN as i64 && lost <= i32::MAX as i64 && lately >= i32::MIN as i64 && lately
            <= i32::MAX as i64 && room >= fixed && room - fixed >= name.len()
    }

    /// Write the report that is due, and set the next interval; gives the length.
    pub fn build_rtcp(
        &mut self,
        buf: &mut [u8],
        jitter: u32,
        scores: QualityScores,
        interval_ns: u64,
        now_ns: u64,
        ntp: NtpTimestamp,
    ) -> (len: usize)
        requires
            old(self).reportable(),
            old(buf)@.len() >= old(self).report_len(),
        ensures
            len == old(self).compound_bytes(jitter, scores, now_ns, ntp, old(buf)@.len()).len(),
            final(buf)@ == wire::overwritten(
                old(buf)@,
                old(self).compound_bytes(jitter, scores, now_ns, ntp, old(buf)@.len()),
            ),
            *final(self) == old(self).reported(interval_ns, now_ns),
    {
        let blocks = self.build_report_blocks(jitter, now_ns);
        let mut v = if self.packets_sent > 0 {
            rtcp::encode_sender_report(
                self.local_ssrc,
                ntp,
                self.last_rtp_timestamp,
                self.packets_sent,
                self.octets_sent,
                blocks.as_slice(),
            )
        } else {
            rtcp::encode_receiver_report(self.local_ssrc, blocks.as_slice())
        };
        let name = rtcp::encode_sdes(self.local_ssrc, self.cname.as_str());
        wire::push_bytes(&mut v, name.as_slice());
        assert(v@ == self.report_bytes(jitter, now_ns, ntp));
        assert(v@.len() == self.report_len());
        let ghost report = v@;
        let mut extended: bool = false;
        if let Some(remote) = self.remote_ssrc {
            if buf.len() - v.len() >= 48 {
                let xr = rtcp::encode_xr(self.local_ssrc, remote, &self.metrics(scores));
                wire::push_bytes(&mut v, xr.as_slice());
                extended = true;
            }
        }
        proof {
            if !extended {
                assert(v@ =~= report + Seq::<u8>::empty());
            }
        }
        wire::put(buf, v.as_slice());
        if self.packets_sent > 0 {
            self.last_sr_sent_at = Some(now_ns);
        }
        self.last_rtcp_sent = now_ns;
        self.rtcp_interval_ns = interval_ns;
        self.last_rr_packets_received = self.packets_received;
        self.last_rr_expected_packets = self.expected_packets;
        v.len()
    }

    /// Write a goodbye; gives its length.
    pub fn build_bye(&self, buf: &mut [u8], reason: Option<&str>) -> (len: usize)
        requires
            old(buf)@.len() >= 8 + rtcp::reason_bytes(rtcp::reason_utf8(reason)).len(),
        ensures
            len == 8 + rtcp::reason_bytes(rtcp::reason_utf8(reason)).len(),
            final(buf)@ == wire::overwritten(
                old(buf)@,
                rtcp::bye_bytes(seq![self.local_ssrc], rtcp::reason_utf8(reason)),
            ),
    {
        let sources: [u32; 1] = [self.local_ssrc];
        assert(sources@ =~= seq![self.local_ssrc]);
        rtcp::build_bye(buf, &sources, reason)
    }

    /// Write an extended report, if a source is heard; gives its length.
    pub fn build_xr(&self, buf: &mut [u8], scores: QualityScores) -> (len: usize)
        requires
            self.remote_ssrc is Some ==> old(buf)@.len() >= 44,
        ensures
            match self.remote_ssrc {
                Some(remote) => len == 44 && final(buf)@ == wire::overwritten(
                    old(buf)@,
                    rtcp::xr_bytes(self.local_ssrc, remote, self.voice_metrics(scores)),
                ),
                None => len == 0 && final(buf)@ == old(buf)@,
            },
    {
        match self.remote_ssrc {
            Some(remote) => rtcp::build_xr_voip_metrics(
                buf,
                self.local_ssrc,
                remote,
                &self.metrics(scores),
            ),
            None => 0,
        }
    }
}

} // verus!
