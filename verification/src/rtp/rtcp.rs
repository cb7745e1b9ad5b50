//! RTCP packets: reports, source descriptions, goodbyes and extended reports.

pub mod figures;
pub mod layout;
pub mod laws;
pub mod session;

pub use crate::rtp::rtcp::session::{QualityScores, RtcpEvents, RtcpSession};

use crate::text;
use crate::wire;
use vstd::prelude::*;
use vstd::slice::*;
use vstd::string::*;

verus! {

/// Packet type of sender reports.
pub const PT_SR: u8 = 200;

/// Packet type of receiver reports.
pub const PT_RR: u8 = 201;

/// Packet type of source descriptions.
pub const PT_SDES: u8 = 202;

/// Packet type of goodbyes.
pub const PT_BYE: u8 = 203;

/// Packet type of application packets.
pub const PT_APP: u8 = 204;

/// Packet type of extended reports.
pub const PT_XR: u8 = 207;

/// Seconds from 1900 to 1970.
pub const NTP_EPOCH_OFFSET: u64 = 2_208_988_800;

/// Item type of the canonical name.
pub const SDES_CNAME: u8 = 1;

/// Bytes of the largest packet: the length field counts words.
pub const MAX_PACKET_LEN: usize = 262144;

// ---------------------------------------------------------------------------
// Timestamps
// ---------------------------------------------------------------------------

/// Seconds since 1900 with a 32-bit fraction.
#[derive(Debug, Clone, Copy, PartialEq, Eq, Structural)]
pub struct NtpTimestamp {
    pub seconds: u32,
    pub fraction: u32,
}

impl Default for NtpTimestamp {
    fn default() -> (t: NtpTimestamp)
        ensures
            t == (NtpTimestamp { seconds: 0, fraction: 0 }),
    {
        NtpTimestamp { seconds: 0, fraction: 0 }
    }
}

/// Calls `SystemTime::elapsed` on the Unix epoch, and gives whole seconds and
/// the nanoseconds behind them, or nothing if the clock stands before it. Of
/// the machine's clock no more is claimed.
#[verifier::external_body]
fn unix_time() -> (r: Option<(u64, u32)>)
    ensures
        r is Some ==> r->Some_0.1 < 1_000_000_000,
{
    std::time::UNIX_EPOCH.elapsed().ok().map(|d| (d.as_secs(), d.subsec_nanos()))
}

impl NtpTimestamp {
    /// The timestamp of a moment in Unix time.
    pub open spec fn of_unix(secs: u64, nanos: u32) -> NtpTimestamp {
        NtpTimestamp {
            seconds: ((secs + NTP_EPOCH_OFFSET) % 0x1_0000_0000) as u32,
            fraction: (nanos * 0x1_0000_0000 / 1_000_000_000) as u32,
        }
    }

    /// The timestamp of a moment in Unix time.
    pub fn from_unix(secs: u64, nanos: u32) -> (t: NtpTimestamp)
        requires
            nanos < 1_000_000_000,
        ensures
            t == NtpTimestamp::of_unix(secs, nanos),
    {
        NtpTimestamp {
            seconds: ((secs % 0x1_0000_0000 + NTP_EPOCH_OFFSET) % 0x1_0000_0000) as u32,
            fraction: (nanos as u64 * 0x1_0000_0000 / 1_000_000_000) as u32,
        }
    }

    /// The current time of the machine; the Unix epoch if its clock stands
    /// before it.
    pub fn now() -> (t: NtpTimestamp)
        ensures
            exists|secs: u64, nanos: u32|
                nanos < 1_000_000_000 && t == #[trigger] NtpTimestamp::of_unix(secs, nanos),
    {
        match unix_time() {
            Some((secs, nanos)) => NtpTimestamp::from_unix(secs, nanos),
            None => NtpTimestamp::from_unix(0, 0),
        }
    }

    /// The middle 32 bits.
    pub open spec fn middle(self) -> u32 {
        ((self.seconds % 0x1_0000) * 0x1_0000 + self.fraction / 0x1_0000) as u32
    }

    /// The middle 32 bits, as report blocks carry them.
    pub fn compact(&self) -> (c: u32)
        ensures
            c == self.middle(),
    {
        (self.seconds % 0x1_0000) * 0x1_0000 + self.fraction / 0x1_0000
    }

    /// The eight bytes.
    pub open spec fn bytes(self) -> Seq<u8> {
        wire::be32(self.seconds) + wire::be32(self.fraction)
    }

    /// The timestamp at a position.
    pub open spec fn at(d: Seq<u8>, i: int) -> NtpTimestamp {
        NtpTimestamp { seconds: wire::u32_at(d, i), fraction: wire::u32_at(d, i + 4) }
    }

    /// Write the eight bytes.
    pub fn write_to(&self, buf: &mut [u8])
        requires
            old(buf)@.len() >= 8,
        ensures
            final(buf)@ == wire::overwritten(old(buf)@, self.bytes()),
    {
        let mut v: Vec<u8> = Vec::new();
        wire::push_u32(&mut v, self.seconds);
        wire::push_u32(&mut v, self.fraction);
        assert(v@ =~= self.bytes());
        wire::put(buf, v.as_slice());
    }

    /// Read the first eight bytes.
    pub fn parse(buf: &[u8]) -> (t: NtpTimestamp)
        requires
            buf@.len() >= 8,
        ensures
            t == NtpTimestamp::at(buf@, 0),
    {
        NtpTimestamp { seconds: wire::read_u32(buf, 0), fraction: wire::read_u32(buf, 4) }
    }
}

// ---------------------------------------------------------------------------
// Report blocks
// ---------------------------------------------------------------------------

/// What a report says of one source.
#[derive(Debug, Clone, Copy, PartialEq, Eq, Structural)]
pub struct ReportBlock {
    pub ssrc: u32,
    /// Lost since the last report, in 256ths.
    pub fraction_lost: u8,
    /// Lost in all; 24 bits with sign.
    pub cumulative_lost: i32,
    pub extended_highest_seq: u32,
    /// In timestamp units.
    pub jitter: u32,
    pub last_sr: u32,
    /// In 65536ths of a second.
    pub delay_since_last_sr: u32,
}

impl Default for ReportBlock {
    fn default() -> (b: ReportBlock)
        ensures
            b == (ReportBlock {
                ssrc: 0,
                fraction_lost: 0,
                cumulative_lost: 0,
                extended_highest_seq: 0,
                jitter: 0,
                last_sr: 0,
                delay_since_last_sr: 0,
            }),
    {
        ReportBlock {
            ssrc: 0,
            fraction_lost: 0,
            cumulative_lost: 0,
            extended_highest_seq: 0,
            jitter: 0,
            last_sr: 0,
            delay_since_last_sr: 0,
        }
    }
}

/// The low 24 bits of a number, as three bytes.
pub open spec fn be24(x: int) -> Seq<u8> {
    let low = x % 0x100_0000;
    seq![(low / 0x1_0000) as u8, (low / 0x100 % 0x100) as u8, (low % 0x100) as u8]
}

/// The signed 24-bit number at a position.
pub open spec fn i24_at(d: Seq<u8>, i: int) -> i32 {
    let raw = d[i] * 0x1_0000 + d[i + 1] * 0x100 + d[i + 2];
    if raw >= 0x80_0000 {
        (raw - 0x100_0000) as i32
    } else {
        raw as i32
    }
}

fn push_u8(v: &mut Vec<u8>, x: u8)
    ensures
        final(v)@ == old(v)@ + seq![x],
{
    v.push(x);
    assert(v@ =~= old(v)@ + seq![x]);
}

/// The low 24 bits of a number.
fn low24(x: i32) -> (low: u32)
    ensures
        low == (x as int) % 0x100_0000,
        low < 0x100_0000,
{
    let wide: i64 = x as i64 + 0x8000_0000;
    let low: i64 = wide % 0x100_0000;
    low as u32
}

fn push_i24(v: &mut Vec<u8>, x: i32)
    ensures
        final(v)@ == old(v)@ + be24(x as int),
{
    let low: u32 = low24(x);
    v.push((low / 0x1_0000) as u8);
    v.push((low / 0x100 % 0x100) as u8);
    v.push((low % 0x100) as u8);
    assert(v@ =~= old(v)@ + be24(x as int));
}

impl ReportBlock {
    /// Bytes of a block.
    pub const SIZE: usize = 24;

    /// The 24 bytes.
    pub open spec fn bytes(self) -> Seq<u8> {
        wire::be32(self.ssrc) + seq![self.fraction_lost] + be24(self.cumulative_lost as int)
            + wire::be32(self.extended_highest_seq) + wire::be32(self.jitter) + wire::be32(
            self.last_sr,
        ) + wire::be32(self.delay_since_last_sr)
    }

    /// The block at a position.
    pub open spec fn at(d: Seq<u8>, i: int) -> ReportBlock {
        ReportBlock {
            ssrc: wire::u32_at(d, i),
            fraction_lost: d[i + 4],
            cumulative_lost: i24_at(d, i + 5),
            extended_highest_seq: wire::u32_at(d, i + 8),
            jitter: wire::u32_at(d, i + 12),
            last_sr: wire::u32_at(d, i + 16),
            delay_since_last_sr: wire::u32_at(d, i + 20),
        }
    }

    /// Whether the loss fits its 24 bits.
    pub open spec fn fits(self) -> bool {
        -0x80_0000 <= self.cumulative_lost < 0x80_0000
    }

    fn encoded(&self) -> (v: Vec<u8>)
        ensures
            v@ == self.bytes(),
    {
        let mut v: Vec<u8> = Vec::new();
        wire::push_u32(&mut v, self.ssrc);
        assert(v@ =~= wire::be32(self.ssrc));
        push_u8(&mut v, self.fraction_lost);
        push_i24(&mut v, self.cumulative_lost);
        wire::push_u32(&mut v, self.extended_highest_seq);
        wire::push_u32(&mut v, self.jitter);
        wire::push_u32(&mut v, self.last_sr);
        wire::push_u32(&mut v, self.delay_since_last_sr);
        v
    }

    /// Write the 24 bytes.
    pub fn write_to(&self, buf: &mut [u8])
        requires
            old(buf)@.len() >= 24,
        ensures
            final(buf)@ == wire::overwritten(old(buf)@, self.bytes()),
    {
        let v = self.encoded();
        wire::put(buf, v.as_slice());
    }

    /// Read the first 24 bytes.
    pub fn parse(buf: &[u8]) -> (b: ReportBlock)
        requires
            buf@.len() >= 24,
        ensures
            b == ReportBlock::at(buf@, 0),
    {
        ReportBlock::read(buf, 0)
    }

    fn read(d: &[u8], i: usize) -> (b: ReportBlock)
        requires
            i + 24 <= d@.len(),
        ensures
            b == ReportBlock::at(d@, i as int),
    {
        let _n: usize = d.len();
        let raw: i32 = d[i + 5] as i32 * 0x1_0000 + d[i + 6] as i32 * 0x100 + d[i + 7] as i32;
        ReportBlock {
            ssrc: wire::read_u32(d, i),
            fraction_lost: d[i + 4],
            cumulative_lost: if raw >= 0x80_0000 {
                raw - 0x100_0000
            } else {
                raw
            },
            extended_highest_seq: wire::read_u32(d, i + 8),
            jitter: wire::read_u32(d, i + 12),
            last_sr: wire::read_u32(d, i + 16),
            delay_since_last_sr: wire::read_u32(d, i + 20),
        }
    }
}

// ---------------------------------------------------------------------------
// Voice metrics
// ---------------------------------------------------------------------------

/// Quality of a voice stream.
#[derive(Debug, Clone, Copy, PartialEq, Eq, Structural)]
pub struct VoipMetrics {
    /// Lost, in 256ths.
    pub loss_rate: u8,
    /// Discarded, in 256ths.
    pub discard_rate: u8,
    /// Lost in bursts, in 256ths.
    pub burst_density: u8,
    /// Lost in gaps, in 256ths.
    pub gap_density: u8,
    /// In milliseconds.
    pub burst_duration: u16,
    /// In milliseconds.
    pub gap_duration: u16,
    /// In milliseconds.
    pub round_trip_delay: u16,
    /// In milliseconds.
    pub end_system_delay: u16,
    pub signal_level: u8,
    pub noise_level: u8,
    pub rerl: u8,
    /// Gap threshold.
    pub gmin: u8,
    /// 0 to 100, 127 for unknown.
    pub r_factor: u8,
    pub ext_r_factor: u8,
    /// Ten times the score, 127 for unknown.
    pub mos_lq: u8,
    /// Ten times the score, 127 for unknown.
    pub mos_cq: u8,
    pub rx_config: u8,
    pub jb_nominal: u16,
    pub jb_maximum: u16,
    pub jb_abs_max: u16,
}

impl Default for VoipMetrics {
    fn default() -> (m: VoipMetrics)
        ensures
            m == VoipMetrics::zero(),
    {
        VoipMetrics {
            loss_rate: 0,
            discard_rate: 0,
            burst_density: 0,
            gap_density: 0,
            burst_duration: 0,
            gap_duration: 0,
            round_trip_delay: 0,
            end_system_delay: 0,
            signal_level: 0,
            noise_level: 0,
            rerl: 0,
            gmin: 0,
            r_factor: 0,
            ext_r_factor: 0,
            mos_lq: 0,
            mos_cq: 0,
            rx_config: 0,
            jb_nominal: 0,
            jb_maximum: 0,
            jb_abs_max: 0,
        }
    }
}

impl VoipMetrics {
    /// Block type of voice metrics.
    pub const BLOCK_TYPE: u8 = 7;

    /// Bytes of the metrics.
    pub const BLOCK_SIZE: usize = 28;

    /// Metrics that are all zero.
    pub open spec fn zero() -> VoipMetrics {
        VoipMetrics {
            loss_rate: 0,
            discard_rate: 0,
            burst_density: 0,
            gap_density: 0,
            burst_duration: 0,
            gap_duration: 0,
            round_trip_delay: 0,
            end_system_delay: 0,
            signal_level: 0,
            noise_level: 0,
            rerl: 0,
            gmin: 0,
            r_factor: 0,
            ext_r_factor: 0,
            mos_lq: 0,
            mos_cq: 0,
            rx_config: 0,
            jb_nominal: 0,
            jb_maximum: 0,
            jb_abs_max: 0,
        }
    }

    /// The 28 bytes; the one at 21 is reserved.
    pub open spec fn bytes(self) -> Seq<u8> {
        seq![self.loss_rate, self.discard_rate, self.burst_density, self.gap_density]
            + wire::be16(self.burst_duration) + wire::be16(self.gap_duration) + wire::be16(
            self.round_trip_delay,
        ) + wire::be16(self.end_system_delay) + seq![
            self.signal_level,
            self.noise_level,
            self.rerl,
            self.gmin,
            self.r_factor,
            self.ext_r_factor,
            self.mos_lq,
            self.mos_cq,
            self.rx_config,
            0u8,
        ] + wire::be16(self.jb_nominal) + wire::be16(self.jb_maximum) + wire::be16(self.jb_abs_max)
    }

    /// The metrics at a position.
    pub open spec fn at(d: Seq<u8>, i: int) -> VoipMetrics {
        VoipMetrics {
            loss_rate: d[i],
            discard_rate: d[i + 1],
            burst_density: d[i + 2],
            gap_density: d[i + 3],
            burst_duration: wire::u16_at(d, i + 4),
            gap_duration: wire::u16_at(d, i + 6),
            round_trip_delay: wire::u16_at(d, i + 8),
            end_system_delay: wire::u16_at(d, i + 10),
            signal_level: d[i + 12],
            noise_level: d[i + 13],
            rerl: d[i + 14],
            gmin: d[i + 15],
            r_factor: d[i + 16],
            ext_r_factor: d[i + 17],
            mos_lq: d[i + 18],
            mos_cq: d[i + 19],
            rx_config: d[i + 20],
            jb_nominal: wire::u16_at(d, i + 22),
            jb_maximum: wire::u16_at(d, i + 24),
            jb_abs_max: wire::u16_at(d, i + 26),
        }
    }

    fn encoded(&self) -> (v: Vec<u8>)
        ensures
            v@ == self.bytes(),
    {
        let mut v: Vec<u8> = Vec::new();
        v.push(self.loss_rate);
        v.push(self.discard_rate);
        v.push(self.burst_density);
        v.push(self.gap_density);
        assert(v@ =~= seq![
            self.loss_rate,
            self.discard_rate,
            self.burst_density,
            self.gap_density,
        ]);
        wire::push_u16(&mut v, self.burst_duration);
        wire::push_u16(&mut v, self.gap_duration);
        wire::push_u16(&mut v, self.round_trip_delay);
        wire::push_u16(&mut v, self.end_system_delay);
        let levels: [u8; 10] = [
            self.signal_level,
            self.noise_level,
            self.rerl,
            self.gmin,
            self.r_factor,
            self.ext_r_factor,
            self.mos_lq,
            self.mos_cq,
            self.rx_config,
            0,
        ];
        wire::push_bytes(&mut v, &levels);
        assert(levels@ =~= seq![
            self.signal_level,
            self.noise_level,
            self.rerl,
            self.gmin,
            self.r_factor,
            self.ext_r_factor,
            self.mos_lq,
            self.mos_cq,
            self.rx_config,
            0u8,
        ]);
        wire::push_u16(&mut v, self.jb_nominal);
        wire::push_u16(&mut v, self.jb_maximum);
        wire::push_u16(&mut v, self.jb_abs_max);
        v
    }

    /// Write the 28 bytes.
    pub fn write_to(&self, buf: &mut [u8])
        requires
            old(buf)@.len() >= 28,
        ensures
            final(buf)@ == wire::overwritten(old(buf)@, self.bytes()),
    {
        let v = self.encoded();
        assert(v@.len() == 28);
        wire::put(buf, v.as_slice());
    }

    /// Read the first 28 bytes.
    pub fn parse(buf: &[u8]) -> (r: Option<VoipMetrics>)
        ensures
            r == if buf@.len() < 28 {
                None
            } else {
                Some(VoipMetrics::at(buf@, 0))
            },
    {
        if buf.len() < 28 {
            None
        } else {
            Some(VoipMetrics::read(buf, 0))
        }
    }

    fn read(d: &[u8], i: usize) -> (m: VoipMetrics)
        requires
            i + 28 <= d@.len(),
        ensures
            m == VoipMetrics::at(d@, i as int),
    {
        let _n: usize = d.len();
        VoipMetrics {
            loss_rate: d[i],
            discard_rate: d[i + 1],
            burst_density: d[i + 2],
            gap_density: d[i + 3],
            burst_duration: wire::read_u16(d, i + 4),
            gap_duration: wire::read_u16(d, i + 6),
            round_trip_delay: wire::read_u16(d, i + 8),
            end_system_delay: wire::read_u16(d, i + 10),
            signal_level: d[i + 12],
            noise_level: d[i + 13],
            rerl: d[i + 14],
            gmin: d[i + 15],
            r_factor: d[i + 16],
            ext_r_factor: d[i + 17],
            mos_lq: d[i + 18],
            mos_cq: d[i + 19],
            rx_config: d[i + 20],
            jb_nominal: wire::read_u16(d, i + 22),
            jb_maximum: wire::read_u16(d, i + 24),
            jb_abs_max: wire::read_u16(d, i + 26),
        }
    }
}

// ---------------------------------------------------------------------------
// Packets
// ---------------------------------------------------------------------------

/// Voice metrics of one source.
#[derive(Debug, Clone, Copy, PartialEq, Eq, Structural)]
pub struct VoipMetricsBlock {
    pub source_ssrc: u32,
    pub metrics: VoipMetrics,
}

/// A packet of any type.
#[derive(Debug)]
pub enum RtcpPacket {
    SenderReport(SenderReport),
    ReceiverReport(ReceiverReport),
    SourceDescription(SourceDescription),
    Goodbye(Goodbye),
    ExtendedReport(ExtendedReport),
    Unknown { packet_type: u8 },
}

/// An extended report, with the last voice metrics in it.
#[derive(Debug, Clone, Copy)]
pub struct ExtendedReport {
    pub ssrc: u32,
    pub voip_metrics: Option<VoipMetricsBlock>,
}

/// A sender report.
#[derive(Debug, Clone)]
pub struct SenderReport {
    pub ssrc: u32,
    pub ntp_timestamp: NtpTimestamp,
    pub rtp_timestamp: u32,
    pub packet_count: u32,
    pub octet_count: u32,
    pub report_blocks: Vec<ReportBlock>,
}

/// A receiver report.
#[derive(Debug, Clone)]
pub struct ReceiverReport {
    pub ssrc: u32,
    pub report_blocks: Vec<ReportBlock>,
}

/// A source description.
#[derive(Debug, Clone)]
pub struct SourceDescription {
    pub chunks: Vec<SdesChunk>,
}

/// What a source description says of one source.
#[derive(Debug, Clone)]
pub struct SdesChunk {
    pub ssrc: u32,
    pub cname: Option<String>,
}

/// A goodbye.
#[derive(Debug, Clone)]
pub struct Goodbye {
    pub sources: Vec<u32>,
    pub reason: Option<String>,
}

/// The mathematical content of a chunk.
#[verifier::ext_equal]
pub struct ChunkModel {
    pub ssrc: u32,
    pub cname: Option<Seq<char>>,
}

/// The mathematical content of a packet.
#[verifier::ext_equal]
pub enum RtcpModel {
    SenderReport {
        ssrc: u32,
        ntp: NtpTimestamp,
        rtp_timestamp: u32,
        packet_count: u32,
        octet_count: u32,
        blocks: Seq<ReportBlock>,
    },
    ReceiverReport { ssrc: u32, blocks: Seq<ReportBlock> },
    SourceDescription { chunks: Seq<ChunkModel> },
    Goodbye { sources: Seq<u32>, reason: Option<Seq<char>> },
    ExtendedReport { ssrc: u32, metrics: Option<VoipMetricsBlock> },
    Unknown { packet_type: u8 },
}

/// The characters of an optional text.
pub open spec fn text_of(s: Option<String>) -> Option<Seq<char>> {
    match s {
        Some(t) => Some(t@),
        None => None,
    }
}

/// The content of a list of chunks.
pub open spec fn chunks_of(v: Seq<SdesChunk>) -> Seq<ChunkModel> {
    Seq::new(v.len(), |i: int| ChunkModel { ssrc: v[i].ssrc, cname: text_of(v[i].cname) })
}

impl View for RtcpPacket {
    type V = RtcpModel;

    open spec fn view(&self) -> RtcpModel {
        match *self {
            RtcpPacket::SenderReport(r) => RtcpModel::SenderReport {
                ssrc: r.ssrc,
                ntp: r.ntp_timestamp,
                rtp_timestamp: r.rtp_timestamp,
                packet_count: r.packet_count,
                octet_count: r.octet_count,
                blocks: r.report_blocks@,
            },
            RtcpPacket::ReceiverReport(r) => RtcpModel::ReceiverReport {
                ssrc: r.ssrc,
                blocks: r.report_blocks@,
            },
            RtcpPacket::SourceDescription(r) => RtcpModel::SourceDescription {
                chunks: chunks_of(r.chunks@),
            },
            RtcpPacket::Goodbye(r) => RtcpModel::Goodbye {
                sources: r.sources@,
                reason: text_of(r.reason),
            },
            RtcpPacket::ExtendedReport(r) => RtcpModel::ExtendedReport {
                ssrc: r.ssrc,
                metrics: r.voip_metrics,
            },
            RtcpPacket::Unknown { packet_type } => RtcpModel::Unknown { packet_type },
        }
    }
}

/// The content of a list of packets.
pub open spec fn packets_of(v: Seq<RtcpPacket>) -> Seq<RtcpModel> {
    Seq::new(v.len(), |i: int| v[i]@)
}

// ---------------------------------------------------------------------------
// Parsing
// ---------------------------------------------------------------------------

/// How many whole items of a size stand between a position and the end, at
/// most `n`.
pub open spec fn whole_items(len: nat, from: int, size: int, n: nat) -> nat {
    if len < from {
        0
    } else if (len - from) / size < n {
        ((len - from) / size) as nat
    } else {
        n
    }
}

/// The report blocks from a position on, at most `n`.
pub open spec fn blocks_at(d: Seq<u8>, from: int, n: nat) -> Seq<ReportBlock> {
    Seq::new(whole_items(d.len(), from, 24, n), |i: int| ReportBlock::at(d, from + 24 * i))
}

/// The items of a chunk from a position on: the last valid name among them,
/// and where they end. A zero ends them, and fills up to the next word.
pub open spec fn sdes_items(d: Seq<u8>, o: int, cname: Option<Seq<char>>) -> (
    Option<Seq<char>>,
    int,
)
    decreases d.len() - o,
{
    if o < 0 || o >= d.len() {
        (cname, o)
    } else if d[o] == 0 {
        (cname, (o + 4) / 4 * 4)
    } else if o + 2 > d.len() || o + 2 + d[o + 1] > d.len() {
        (cname, o)
    } else {
        let next = o + 2 + d[o + 1];
        let name = if d[o] == SDES_CNAME {
            text::utf8_text(d.subrange(o + 2, next))
        } else {
            cname
        };
        sdes_items(d, next, name)
    }
}

/// The chunks from a position on, at most `n`.
pub open spec fn sdes_chunks(d: Seq<u8>, o: int, n: nat) -> Seq<ChunkModel>
    decreases n,
{
    if n == 0 || o + 4 > d.len() {
        Seq::empty()
    } else {
        let (cname, end) = sdes_items(d, o + 4, None);
        seq![ChunkModel { ssrc: wire::u32_at(d, o), cname }] + sdes_chunks(d, end, (n - 1) as nat)
    }
}

/// The reason behind the sources of a goodbye.
pub open spec fn bye_reason(d: Seq<u8>, o: int) -> Option<Seq<char>> {
    if o < d.len() && o + 1 + d[o] <= d.len() {
        text::utf8_text(d.subrange(o + 1, o + 1 + d[o]))
    } else {
        None
    }
}

/// The last voice metrics in the blocks from a position on.
pub open spec fn xr_metrics(d: Seq<u8>, o: int, found: Option<VoipMetricsBlock>) -> Option<
    VoipMetricsBlock,
>
    decreases d.len() - o,
{
    if o < 0 || o + 4 > d.len() || o + 4 + wire::u16_at(d, o + 2) * 4 > d.len() {
        found
    } else {
        let len = wire::u16_at(d, o + 2) * 4;
        let block = if d[o] == VoipMetrics::BLOCK_TYPE && len >= 32 {
            Some(
                VoipMetricsBlock {
                    source_ssrc: wire::u32_at(d, o + 4),
                    metrics: VoipMetrics::at(d, o + 8),
                },
            )
        } else {
            found
        };
        xr_metrics(d, o + 4 + len, block)
    }
}

/// What one packet says, given its bytes without padding.
pub open spec fn parsed_one(d: Seq<u8>, count: nat, pt: u8) -> Option<RtcpModel> {
    if pt == PT_SR {
        if d.len() < 28 {
            None
        } else {
            Some(
                RtcpModel::SenderReport {
                    ssrc: wire::u32_at(d, 4),
                    ntp: NtpTimestamp::at(d, 8),
                    rtp_timestamp: wire::u32_at(d, 16),
                    packet_count: wire::u32_at(d, 20),
                    octet_count: wire::u32_at(d, 24),
                    blocks: blocks_at(d, 28, count),
                },
            )
        }
    } else if pt == PT_RR {
        if d.len() < 8 {
            None
        } else {
            Some(
                RtcpModel::ReceiverReport {
                    ssrc: wire::u32_at(d, 4),
                    blocks: blocks_at(d, 8, count),
                },
            )
        }
    } else if pt == PT_SDES {
        Some(RtcpModel::SourceDescription { chunks: sdes_chunks(d, 4, count) })
    } else if pt == PT_BYE {
        let n = whole_items(d.len(), 4, 4, count);
        Some(
            RtcpModel::Goodbye {
                sources: Seq::new(n, |i: int| wire::u32_at(d, 4 + 4 * i)),
                reason: bye_reason(d, 4 + 4 * n as int),
            },
        )
    } else if pt == PT_XR {
        if d.len() < 8 {
            None
        } else {
            Some(
                RtcpModel::ExtendedReport {
                    ssrc: wire::u32_at(d, 4),
                    metrics: xr_metrics(d, 8, None),
                },
            )
        }
    } else {
        Some(RtcpModel::Unknown { packet_type: pt })
    }
}

/// Bytes of the first packet, as its header says.
pub open spec fn packet_len(d: Seq<u8>) -> int {
    (wire::u16_at(d, 2) + 1) * 4
}

/// Bytes of the first packet without its padding. A count of padding that
/// would reach into the header is not one.
pub open spec fn unpadded_len(d: Seq<u8>) -> int {
    let n = packet_len(d);
    if d[0] / 32 % 2 == 1 && 0 < d[n - 1] < n - 4 {
        n - d[n - 1]
    } else {
        n
    }
}

/// Whether a whole packet of version 2 stands at the start.
pub open spec fn starts_packet(d: Seq<u8>) -> bool {
    d.len() >= 4 && d[0] / 64 == 2 && packet_len(d) <= d.len()
}

/// The packets of a compound packet, up to the first that is no packet.
pub open spec fn parsed_compound(d: Seq<u8>) -> Seq<RtcpModel>
    decreases d.len(),
{
    if !starts_packet(d) {
        Seq::empty()
    } else {
        let first = parsed_one(d.subrange(0, unpadded_len(d)), (d[0] % 32) as nat, d[1]);
        let rest = parsed_compound(d.subrange(packet_len(d), d.len() as int));
        match first {
            Some(p) => seq![p] + rest,
            None => rest,
        }
    }
}

fn read_blocks(d: &[u8], from: usize, n: usize) -> (v: Vec<ReportBlock>)
    requires
        from <= d@.len() <= MAX_PACKET_LEN,
    ensures
        v@ == blocks_at(d@, from as int, n as nat),
{
    let mut v: Vec<ReportBlock> = Vec::new();
    let mut i: usize = 0;
    while i < n && d.len() - from >= 24 * (i + 1)
        invariant
            i <= n,
            i <= MAX_PACKET_LEN,
            from <= d@.len() <= MAX_PACKET_LEN,
            i <= whole_items(d@.len(), from as int, 24, n as nat),
            v@ == Seq::new(i as nat, |k: int| ReportBlock::at(d@, from + 24 * k)),
        decreases n - i,
    {
        v.push(ReportBlock::read(d, from + 24 * i));
        i += 1;
        assert(v@ =~= Seq::new(i as nat, |k: int| ReportBlock::at(d@, from + 24 * k)));
    }
    assert(v@ =~= blocks_at(d@, from as int, n as nat));
    v
}

fn parse_sender_report(d: &[u8], count: usize) -> (r: Option<SenderReport>)
    requires
        d@.len() <= MAX_PACKET_LEN,
    ensures
        match r {
            Some(p) => parsed_one(d@, count as nat, PT_SR) == Some(RtcpPacket::SenderReport(p)@),
            None => parsed_one(d@, count as nat, PT_SR) is None,
        },
{
    if d.len() < 28 {
        return None;
    }
    Some(
        SenderReport {
            ssrc: wire::read_u32(d, 4),
            ntp_timestamp: NtpTimestamp {
                seconds: wire::read_u32(d, 8),
                fraction: wire::read_u32(d, 12),
            },
            rtp_timestamp: wire::read_u32(d, 16),
            packet_count: wire::read_u32(d, 20),
            octet_count: wire::read_u32(d, 24),
            report_blocks: read_blocks(d, 28, count),
        },
    )
}

fn parse_receiver_report(d: &[u8], count: usize) -> (r: Option<ReceiverReport>)
    requires
        d@.len() <= MAX_PACKET_LEN,
    ensures
        match r {
            Some(p) => parsed_one(d@, count as nat, PT_RR) == Some(RtcpPacket::ReceiverReport(p)@),
            None => parsed_one(d@, count as nat, PT_RR) is None,
        },
{
    if d.len() < 8 {
        return None;
    }
    Some(
        ReceiverReport { ssrc: wire::read_u32(d, 4), report_blocks: read_blocks(d, 8, count) },
    )
}

/// The items of a chunk from a position on, and where they end.
fn read_items(d: &[u8], from: usize) -> (r: (Option<String>, usize))
    requires
        from <= d@.len() <= MAX_PACKET_LEN,
    ensures
        (text_of(r.0), r.1 as int) == sdes_items(d@, from as int, None),
        r.1 <= d@.len() + 4,
{
    let mut o: usize = from;
    let mut cname: Option<String> = None;
    while o < d.len() && d[o] != 0 && d.len() - o >= 2 && d.len() - o - 2 >= d[o + 1] as usize
        invariant
            o <= d@.len() <= MAX_PACKET_LEN,
            sdes_items(d@, o as int, text_of(cname)) == sdes_items(d@, from as int, None),
        decreases d@.len() - o,
    {
        let next: usize = o + 2 + d[o + 1] as usize;
        if d[o] == SDES_CNAME {
            cname = text::from_utf8(wire::copy_range(d, o + 2, next));
        }
        o = next;
    }
    if o < d.len() && d[o] == 0 {
        (cname, (o + 4) / 4 * 4)
    } else {
        (cname, o)
    }
}

fn parse_sdes(d: &[u8], count: usize) -> (r: SourceDescription)
    requires
        4 <= d@.len() <= MAX_PACKET_LEN,
    ensures
        parsed_one(d@, count as nat, PT_SDES) == Some(RtcpPacket::SourceDescription(r)@),
{
    let mut chunks: Vec<SdesChunk> = Vec::new();
    let mut o: usize = 4;
    let mut left: usize = count;
    while left > 0 && o <= d.len() && d.len() - o >= 4
        invariant
            o <= d@.len() + 4,
            4 <= d@.len() <= MAX_PACKET_LEN,
            chunks_of(chunks@) + sdes_chunks(d@, o as int, left as nat) == sdes_chunks(
                d@,
                4,
                count as nat,
            ),
        decreases left,
    {
        let ghost before = chunks_of(chunks@);
        let ssrc: u32 = wire::read_u32(d, o);
        let (cname, end) = read_items(d, o + 4);
        let ghost c = ChunkModel { ssrc, cname: text_of(cname) };
        let ghost o1 = o as int;
        let ghost left1 = left as nat;
        chunks.push(SdesChunk { ssrc, cname });
        o = end;
        left -= 1;
        proof {
            assert(chunks_of(chunks@) =~= before.push(c));
            assert(sdes_chunks(d@, o1, left1) == seq![c] + sdes_chunks(
                d@,
                o as int,
                left as nat,
            ));
            assert(before + (seq![c] + sdes_chunks(d@, o as int, left as nat)) =~= before.push(c)
                + sdes_chunks(d@, o as int, left as nat));
        }
    }
    assert(chunks_of(chunks@) =~= sdes_chunks(d@, 4, count as nat));
    SourceDescription { chunks }
}

fn parse_bye(d: &[u8], count: usize) -> (r: Goodbye)
    requires
        4 <= d@.len() <= MAX_PACKET_LEN,
    ensures
        parsed_one(d@, count as nat, PT_BYE) == Some(RtcpPacket::Goodbye(r)@),
{
    let mut sources: Vec<u32> = Vec::new();
    let mut i: usize = 0;
    while i < count && d.len() - 4 >= 4 * (i + 1)
        invariant
            i <= count,
            i <= MAX_PACKET_LEN,
            4 <= d@.len() <= MAX_PACKET_LEN,
            i <= whole_items(d@.len(), 4, 4, count as nat),
            sources@ == Seq::new(i as nat, |k: int| wire::u32_at(d@, 4 + 4 * k)),
        decreases count - i,
    {
        sources.push(wire::read_u32(d, 4 + 4 * i));
        i += 1;
        assert(sources@ =~= Seq::new(i as nat, |k: int| wire::u32_at(d@, 4 + 4 * k)));
    }
    assert(i == whole_items(d@.len(), 4, 4, count as nat));
    let o: usize = 4 + 4 * i;
    let reason = if o < d.len() && d.len() - o - 1 >= d[o] as usize {
        text::from_utf8(wire::copy_range(d, o + 1, o + 1 + d[o] as usize))
    } else {
        None
    };
    Goodbye { sources, reason }
}

fn parse_xr(d: &[u8]) -> (r: Option<ExtendedReport>)
    requires
        d@.len() <= MAX_PACKET_LEN,
    ensures
        match r {
            Some(p) => parsed_one(d@, 0, PT_XR) == Some(RtcpPacket::ExtendedReport(p)@),
            None => parsed_one(d@, 0, PT_XR) is None,
        },
{
    if d.len() < 8 {
        return None;
    }
    let mut found: Option<VoipMetricsBlock> = None;
    let mut o: usize = 8;
    while d.len() - o >= 4 && d.len() - o - 4 >= wire::read_u16(d, o + 2) as usize * 4
        invariant
            8 <= o <= d@.len() <= MAX_PACKET_LEN,
            xr_metrics(d@, o as int, found) == xr_metrics(d@, 8, None),
        decreases d@.len() - o,
    {
        let len: usize = wire::read_u16(d, o + 2) as usize * 4;
        if d[o] == VoipMetrics::BLOCK_TYPE && len >= 32 {
            found = Some(
                VoipMetricsBlock {
                    source_ssrc: wire::read_u32(d, o + 4),
                    metrics: VoipMetrics::read(d, o + 8),
                },
            );
        }
        o = o + 4 + len;
    }
    Some(ExtendedReport { ssrc: wire::read_u32(d, 4), voip_metrics: found })
}

fn parse_one(d: &[u8], count: usize, pt: u8) -> (r: Option<RtcpPacket>)
    requires
        4 <= d@.len() <= MAX_PACKET_LEN,
    ensures
        match r {
            Some(p) => parsed_one(d@, count as nat, pt) == Some(p@),
            None => parsed_one(d@, count as nat, pt) is None,
        },
{
    if pt == PT_SR {
        match parse_sender_report(d, count) {
            Some(p) => Some(RtcpPacket::SenderReport(p)),
            None => None,
        }
    } else if pt == PT_RR {
        match parse_receiver_report(d, count) {
            Some(p) => Some(RtcpPacket::ReceiverReport(p)),
            None => None,
        }
    } else if pt == PT_SDES {
        Some(RtcpPacket::SourceDescription(parse_sdes(d, count)))
    } else if pt == PT_BYE {
        Some(RtcpPacket::Goodbye(parse_bye(d, count)))
    } else if pt == PT_XR {
        match parse_xr(d) {
            Some(p) => Some(RtcpPacket::ExtendedReport(p)),
            None => None,
        }
    } else {
        Some(RtcpPacket::Unknown { packet_type: pt })
    }
}

/// Parse a compound packet, up to the first part that is no packet. A report
/// that is too short is left out.
pub fn parse_rtcp_compound(data: &[u8]) -> (packets: Vec<RtcpPacket>)
    ensures
        packets_of(packets@) == parsed_compound(data@),
{
    let mut packets: Vec<RtcpPacket> = Vec::new();
    let mut rest: &[u8] = data;
    assert(packets_of(packets@) + parsed_compound(rest@) =~= parsed_compound(data@));
    while rest.len() >= 4 && rest[0] / 64 == 2
        invariant_except_break
            packets_of(packets@) + parsed_compound(rest@) == parsed_compound(data@),
        ensures
            packets_of(packets@) + parsed_compound(rest@) == parsed_compound(data@),
            !starts_packet(rest@),
        decreases rest@.len(),
    {
        let len: usize = (wire::read_u16(rest, 2) as usize + 1) * 4;
        if len > rest.len() {
            break ;
        }
        let padding: usize = rest[len - 1] as usize;
        let end: usize = if rest[0] / 32 % 2 == 1 && padding > 0 && padding < len - 4 {
            len - padding
        } else {
            len
        };
        let ghost before = packets_of(packets@);
        let ghost d = rest@;
        match parse_one(slice_subrange(rest, 0, end), (rest[0] % 32) as usize, rest[1]) {
            Some(p) => {
                packets.push(p);
                assert(packets_of(packets@) =~= before.push(p@));
                assert(before + (seq![p@] + parsed_compound(d.subrange(len as int, d.len() as int)))
                    =~= before.push(p@) + parsed_compound(
                    d.subrange(len as int, d.len() as int),
                ));
            },
            None => {},
        }
        rest = slice_subrange(rest, len, rest.len());
    }
    assert(packets_of(packets@) + parsed_compound(rest@) =~= packets_of(packets@));
    packets
}

// ---------------------------------------------------------------------------
// Building
// ---------------------------------------------------------------------------

/// A packet header: version 2, no padding.
pub open spec fn header(count: nat, pt: u8, words: nat) -> Seq<u8> {
    seq![(128 + count) as u8, pt] + wire::be16(words as u16)
}

/// The smaller of a count and the 31 that a header can hold.
pub open spec fn header_count(n: nat) -> nat {
    if n > 31 {
        31
    } else {
        n
    }
}

/// The bytes of a list of blocks.
pub open spec fn blocks_bytes(blocks: Seq<ReportBlock>) -> Seq<u8>
    decreases blocks.len(),
{
    if blocks.len() == 0 {
        Seq::empty()
    } else {
        blocks_bytes(blocks.drop_last()) + blocks.last().bytes()
    }
}

/// The bytes of a list of 32-bit numbers.
pub open spec fn words_bytes(words: Seq<u32>) -> Seq<u8>
    decreases words.len(),
{
    if words.len() == 0 {
        Seq::empty()
    } else {
        words_bytes(words.drop_last()) + wire::be32(words.last())
    }
}

/// The first entries of a list, at most 31.
pub open spec fn first_31<T>(s: Seq<T>) -> Seq<T> {
    s.take(header_count(s.len()) as int)
}

/// A sender report, with at most 31 blocks.
pub open spec fn sender_report_bytes(
    ssrc: u32,
    ntp: NtpTimestamp,
    rtp_timestamp: u32,
    packet_count: u32,
    octet_count: u32,
    blocks: Seq<ReportBlock>,
) -> Seq<u8> {
    let n = header_count(blocks.len());
    header(n, PT_SR, 6 + 6 * n) + wire::be32(ssrc) + ntp.bytes() + wire::be32(rtp_timestamp)
        + wire::be32(packet_count) + wire::be32(octet_count) + blocks_bytes(first_31(blocks))
}

/// A receiver report, with at most 31 blocks.
pub open spec fn receiver_report_bytes(ssrc: u32, blocks: Seq<ReportBlock>) -> Seq<u8> {
    let n = header_count(blocks.len());
    header(n, PT_RR, 1 + 6 * n) + wire::be32(ssrc) + blocks_bytes(first_31(blocks))
}

/// A run of zeros.
pub open spec fn zeros(n: nat) -> Seq<u8> {
    Seq::new(n, |i: int| 0u8)
}

/// At most 255 bytes of a text.
pub open spec fn item_bytes(t: Seq<u8>) -> Seq<u8> {
    if t.len() > 255 {
        t.take(255)
    } else {
        t
    }
}

/// The next multiple of four.
pub open spec fn round_up(n: nat) -> nat {
    (n + 3) / 4 * 4
}

/// A source description with the canonical name, given its bytes. The name is
/// cut at 255 bytes; at least one zero ends the items.
pub open spec fn sdes_bytes(ssrc: u32, cname: Seq<u8>) -> Seq<u8> {
    let name = item_bytes(cname);
    let items = round_up(name.len() + 3);
    header(1, PT_SDES, (1 + items / 4) as nat) + wire::be32(ssrc) + seq![
        SDES_CNAME,
        name.len() as u8,
    ] + name + zeros((items - 2 - name.len()) as nat)
}

/// The reason of a goodbye, filled up to whole words.
pub open spec fn reason_bytes(reason: Option<Seq<u8>>) -> Seq<u8> {
    match reason {
        Some(r) => {
            let t = item_bytes(r);
            seq![t.len() as u8] + t + zeros((round_up(t.len() + 1) - 1 - t.len()) as nat)
        },
        None => Seq::empty(),
    }
}

/// A goodbye, with at most 31 sources.
pub open spec fn bye_bytes(sources: Seq<u32>, reason: Option<Seq<u8>>) -> Seq<u8> {
    let n = header_count(sources.len());
    let r = reason_bytes(reason);
    header(n, PT_BYE, (n + r.len() / 4) as nat) + words_bytes(first_31(sources)) + r
}

/// An extended report with the voice metrics of one source.
pub open spec fn xr_bytes(ssrc: u32, remote_ssrc: u32, metrics: VoipMetrics) -> Seq<u8> {
    header(0, PT_XR, 10) + wire::be32(ssrc) + seq![VoipMetrics::BLOCK_TYPE, 0u8, 0u8, 8u8]
        + wire::be32(remote_ssrc) + metrics.bytes()
}

/// The UTF-8 form of a text.
pub open spec fn utf8_of(s: Seq<char>) -> Seq<u8> {
    vstd::utf8::encode_utf8(s)
}

pub(crate) proof fn lemma_blocks_bytes(blocks: Seq<ReportBlock>)
    ensures
        blocks_bytes(blocks).len() == 24 * blocks.len(),
        forall|i: int|
            0 <= i < blocks.len() ==> blocks_bytes(blocks).subrange(24 * i, 24 * i + 24)
                == #[trigger] blocks[i].bytes(),
    decreases blocks.len(),
{
    if blocks.len() > 0 {
        lemma_blocks_bytes(blocks.drop_last());
        let b = blocks_bytes(blocks);
        let before = blocks_bytes(blocks.drop_last());
        assert forall|i: int| 0 <= i < blocks.len() implies b.subrange(24 * i, 24 * i + 24)
            == #[trigger] blocks[i].bytes() by {
            if i < blocks.len() - 1 {
                assert(blocks.drop_last()[i] == blocks[i]);
                assert(before.subrange(24 * i, 24 * i + 24) == blocks.drop_last()[i].bytes());
                assert(b.subrange(24 * i, 24 * i + 24) =~= before.subrange(24 * i, 24 * i + 24));
            } else {
                assert(b.subrange(24 * i, 24 * i + 24) =~= blocks.last().bytes());
            }
        }
    }
}

pub(crate) proof fn lemma_words_bytes(words: Seq<u32>)
    ensures
        words_bytes(words).len() == 4 * words.len(),
        forall|i: int|
            0 <= i < words.len() ==> words_bytes(words).subrange(4 * i, 4 * i + 4) == wire::be32(
                #[trigger] words[i],
            ),
    decreases words.len(),
{
    if words.len() > 0 {
        lemma_words_bytes(words.drop_last());
        let b = words_bytes(words);
        let before = words_bytes(words.drop_last());
        assert forall|i: int| 0 <= i < words.len() implies b.subrange(4 * i, 4 * i + 4)
            == wire::be32(#[trigger] words[i]) by {
            if i < words.len() - 1 {
                assert(words.drop_last()[i] == words[i]);
                assert(b.subrange(4 * i, 4 * i + 4) =~= before.subrange(4 * i, 4 * i + 4));
            } else {
                assert(b.subrange(4 * i, 4 * i + 4) =~= wire::be32(words.last()));
            }
        }
    }
}

fn start_packet(count: usize, pt: u8, words: u16) -> (v: Vec<u8>)
    requires
        count <= 31,
    ensures
        v@ == header(count as nat, pt, words as nat),
{
    let mut v: Vec<u8> = Vec::new();
    v.push(128 + count as u8);
    v.push(pt);
    assert(v@ =~= seq![(128 + count) as u8, pt]);
    wire::push_u16(&mut v, words);
    v
}

fn append_blocks(v: &mut Vec<u8>, blocks: &[ReportBlock])
    ensures
        final(v)@ == old(v)@ + blocks_bytes(first_31(blocks@)),
{
    let mut i: usize = 0;
    assert(v@ =~= old(v)@ + blocks_bytes(blocks@.take(0)));
    while i < blocks.len() && i < 31
        invariant
            i <= header_count(blocks@.len()),
            v@ == old(v)@ + blocks_bytes(blocks@.take(i as int)),
        decreases blocks@.len() - i,
    {
        let b = blocks[i].encoded();
        wire::push_bytes(v, b.as_slice());
        i += 1;
        proof {
            assert(blocks@.take(i as int).drop_last() =~= blocks@.take(i - 1));
            assert(v@ =~= old(v)@ + blocks_bytes(blocks@.take(i as int)));
        }
    }
}

pub(crate) fn encode_sender_report(
    ssrc: u32,
    ntp: NtpTimestamp,
    rtp_timestamp: u32,
    packet_count: u32,
    octet_count: u32,
    blocks: &[ReportBlock],
) -> (v: Vec<u8>)
    ensures
        v@ == sender_report_bytes(
            ssrc,
            ntp,
            rtp_timestamp,
            packet_count,
            octet_count,
            blocks@,
        ),
        v@.len() == 28 + 24 * header_count(blocks@.len()),
{
    let n: usize = if blocks.len() > 31 {
        31
    } else {
        blocks.len()
    };
    let mut v = start_packet(n, PT_SR, 6 + 6 * n as u16);
    wire::push_u32(&mut v, ssrc);
    let ghost front = v@;
    wire::push_u32(&mut v, ntp.seconds);
    wire::push_u32(&mut v, ntp.fraction);
    assert(v@ =~= front + ntp.bytes());
    wire::push_u32(&mut v, rtp_timestamp);
    wire::push_u32(&mut v, packet_count);
    wire::push_u32(&mut v, octet_count);
    append_blocks(&mut v, blocks);
    proof {
        lemma_blocks_bytes(first_31(blocks@));
    }
    v
}

pub(crate) fn encode_receiver_report(ssrc: u32, blocks: &[ReportBlock]) -> (v: Vec<u8>)
    ensures
        v@ == receiver_report_bytes(ssrc, blocks@),
        v@.len() == 8 + 24 * header_count(blocks@.len()),
{
    let n: usize = if blocks.len() > 31 {
        31
    } else {
        blocks.len()
    };
    let mut v = start_packet(n, PT_RR, 1 + 6 * n as u16);
    wire::push_u32(&mut v, ssrc);
    append_blocks(&mut v, blocks);
    proof {
        lemma_blocks_bytes(first_31(blocks@));
    }
    v
}

pub(crate) fn encode_sdes(ssrc: u32, cname: &str) -> (v: Vec<u8>)
    ensures
        v@ == sdes_bytes(ssrc, utf8_of(cname@)),
        v@.len() == 8 + round_up(item_bytes(utf8_of(cname@)).len() + 3),
{
    let bytes = cname.as_bytes();
    let n: usize = if bytes.len() > 255 {
        255
    } else {
        bytes.len()
    };
    let items: usize = (n + 6) / 4 * 4;
    let name = slice_subrange(bytes, 0, n);
    assert(name@ =~= item_bytes(utf8_of(cname@)));
    let mut v = start_packet(1, PT_SDES, (1 + items / 4) as u16);
    wire::push_u32(&mut v, ssrc);
    let ghost front = v@;
    v.push(SDES_CNAME);
    v.push(n as u8);
    assert(v@ =~= front + seq![SDES_CNAME, n as u8]);
    wire::push_bytes(&mut v, name);
    wire::push_zeros(&mut v, items - 2 - n);
    v
}

/// The bytes of an optional text.
pub open spec fn reason_utf8(reason: Option<&str>) -> Option<Seq<u8>> {
    match reason {
        Some(r) => Some(utf8_of(r@)),
        None => None,
    }
}

fn encode_reason(reason: Option<&str>) -> (v: Vec<u8>)
    ensures
        v@ == reason_bytes(reason_utf8(reason)),
        v@.len() <= 256,
        v@.len() % 4 == 0,
{
    let mut v: Vec<u8> = Vec::new();
    match reason {
        Some(r) => {
            let bytes = r.as_bytes();
            let n: usize = if bytes.len() > 255 {
                255
            } else {
                bytes.len()
            };
            let t = slice_subrange(bytes, 0, n);
            assert(t@ =~= item_bytes(utf8_of(r@)));
            v.push(n as u8);
            assert(v@ =~= seq![n as u8]);
            wire::push_bytes(&mut v, t);
            wire::push_zeros(&mut v, (n + 4) / 4 * 4 - 1 - n);
        },
        None => {},
    }
    v
}

fn encode_bye(sources: &[u32], reason: Option<&str>) -> (v: Vec<u8>)
    ensures
        v@ == bye_bytes(sources@, reason_utf8(reason)),
        v@.len() == 4 + 4 * header_count(sources@.len()) + reason_bytes(
            reason_utf8(reason),
        ).len(),
{
    let n: usize = if sources.len() > 31 {
        31
    } else {
        sources.len()
    };
    let r = encode_reason(reason);
    let mut v = start_packet(n, PT_BYE, (n + r.len() / 4) as u16);
    let ghost front = v@;
    let mut i: usize = 0;
    assert(v@ =~= front + words_bytes(sources@.take(0)));
    while i < n
        invariant
            i <= n <= sources@.len(),
            v@ == front + words_bytes(sources@.take(i as int)),
        decreases n - i,
    {
        wire::push_u32(&mut v, sources[i]);
        i += 1;
        proof {
            assert(sources@.take(i as int).drop_last() =~= sources@.take(i - 1));
            assert(v@ =~= front + words_bytes(sources@.take(i as int)));
        }
    }
    wire::push_bytes(&mut v, r.as_slice());
    proof {
        lemma_words_bytes(first_31(sources@));
    }
    v
}

pub(crate) fn encode_xr(ssrc: u32, remote_ssrc: u32, metrics: &VoipMetrics) -> (v: Vec<u8>)
    ensures
        v@ == xr_bytes(ssrc, remote_ssrc, *metrics),
        v@.len() == 44,
{
    let mut v = start_packet(0, PT_XR, 10);
    wire::push_u32(&mut v, ssrc);
    let block: [u8; 4] = [VoipMetrics::BLOCK_TYPE, 0, 0, 8];
    wire::push_bytes(&mut v, &block);
    assert(block@ =~= seq![VoipMetrics::BLOCK_TYPE, 0u8, 0u8, 8u8]);
    wire::push_u32(&mut v, remote_ssrc);
    let m = metrics.encoded();
    wire::push_bytes(&mut v, m.as_slice());
    v
}

/// Write a sender report; gives its length.
pub fn build_sender_report(
    buf: &mut [u8],
    ssrc: u32,
    ntp: NtpTimestamp,
    rtp_timestamp: u32,
    packet_count: u32,
    octet_count: u32,
    report_blocks: &[ReportBlock],
) -> (len: usize)
    requires
        old(buf)@.len() >= 28 + 24 * header_count(report_blocks@.len()),
    ensures
        len == 28 + 24 * header_count(report_blocks@.len()),
        final(buf)@ == wire::overwritten(
            old(buf)@,
            sender_report_bytes(
                ssrc,
                ntp,
                rtp_timestamp,
                packet_count,
                octet_count,
                report_blocks@,
            ),
        ),
{
    let v = encode_sender_report(
        ssrc,
        ntp,
        rtp_timestamp,
        packet_count,
        octet_count,
        report_blocks,
    );
    wire::put(buf, v.as_slice());
    v.len()
}

/// Write a receiver report; gives its length.
pub fn build_receiver_report(buf: &mut [u8], ssrc: u32, report_blocks: &[ReportBlock]) -> (len:
    usize)
    requires
        old(buf)@.len() >= 8 + 24 * header_count(report_blocks@.len()),
    ensures
        len == 8 + 24 * header_count(report_blocks@.len()),
        final(buf)@ == wire::overwritten(
            old(buf)@,
            receiver_report_bytes(ssrc, report_blocks@),
        ),
{
    let v = encode_receiver_report(ssrc, report_blocks);
    wire::put(buf, v.as_slice());
    v.len()
}

/// Write a source description with the canonical name; gives its length.
pub fn build_sdes_cname(buf: &mut [u8], ssrc: u32, cname: &str) -> (len: usize)
    requires
        old(buf)@.len() >= 8 + round_up(item_bytes(utf8_of(cname@)).len() + 3),
    ensures
        len == 8 + round_up(item_bytes(utf8_of(cname@)).len() + 3),
        final(buf)@ == wire::overwritten(old(buf)@, sdes_bytes(ssrc, utf8_of(cname@))),
{
    let v = encode_sdes(ssrc, cname);
    wire::put(buf, v.as_slice());
    v.len()
}

/// Write a goodbye; gives its length.
pub fn build_bye(buf: &mut [u8], sources: &[u32], reason: Option<&str>) -> (len: usize)
    requires
        old(buf)@.len() >= 4 + 4 * header_count(sources@.len()) + reason_bytes(
            reason_utf8(reason),
        ).len(),
    ensures
        len == 4 + 4 * header_count(sources@.len()) + reason_bytes(reason_utf8(reason)).len(),
        final(buf)@ == wire::overwritten(old(buf)@, bye_bytes(sources@, reason_utf8(reason))),
{
    let v = encode_bye(sources, reason);
    wire::put(buf, v.as_slice());
    v.len()
}

/// Write an extended report with voice metrics; gives its length, 44.
pub fn build_xr_voip_metrics(
    buf: &mut [u8],
    ssrc: u32,
    remote_ssrc: u32,
    metrics: &VoipMetrics,
) -> (len: usize)
    requires
        old(buf)@.len() >= 44,
    ensures
        len == 44,
        final(buf)@ == wire::overwritten(old(buf)@, xr_bytes(ssrc, remote_ssrc, *metrics)),
{
    let v = encode_xr(ssrc, remote_ssrc, metrics);
    wire::put(buf, v.as_slice());
    v.len()
}

/// Write a sender report and a source description; gives their length.
pub fn build_compound_sr(
    buf: &mut [u8],
    ssrc: u32,
    ntp: NtpTimestamp,
    rtp_timestamp: u32,
    packet_count: u32,
    octet_count: u32,
    report_blocks: &[ReportBlock],
    cname: &str,
) -> (len: usize)
    requires
        old(buf)@.len() >= 36 + 24 * header_count(report_blocks@.len()) + round_up(
            item_bytes(utf8_of(cname@)).len() + 3,
        ),
    ensures
        len == 36 + 24 * header_count(report_blocks@.len()) + round_up(
            item_bytes(utf8_of(cname@)).len() + 3,
        ),
        final(buf)@ == wire::overwritten(
            old(buf)@,
            sender_report_bytes(
                ssrc,
                ntp,
                rtp_timestamp,
                packet_count,
                octet_count,
                report_blocks@,
            ) + sdes_bytes(ssrc, utf8_of(cname@)),
        ),
{
    let mut v = encode_sender_report(
        ssrc,
        ntp,
        rtp_timestamp,
        packet_count,
        octet_count,
        report_blocks,
    );
    let sdes = encode_sdes(ssrc, cname);
    wire::push_bytes(&mut v, sdes.as_slice());
    wire::put(buf, v.as_slice());
    v.len()
}

/// Write a receiver report and a source description; gives their length.
pub fn build_compound_rr(
    buf: &mut [u8],
    ssrc: u32,
    report_blocks: &[ReportBlock],
    cname: &str,
) -> (len: usize)
    requires
        old(buf)@.len() >= 16 + 24 * header_count(report_blocks@.len()) + round_up(
            item_bytes(utf8_of(cname@)).len() + 3,
        ),
    ensures
        len == 16 + 24 * header_count(report_blocks@.len()) + round_up(
            item_bytes(utf8_of(cname@)).len() + 3,
        ),
        final(buf)@ == wire::overwritten(
            old(buf)@,
            receiver_report_bytes(ssrc, report_blocks@) + sdes_bytes(ssrc, utf8_of(cname@)),
        ),
{
    let mut v = encode_receiver_report(ssrc, report_blocks);
    let sdes = encode_sdes(ssrc, cname);
    wire::push_bytes(&mut v, sdes.as_slice());
    wire::put(buf, v.as_slice());
    v.len()
}

} // verus!
