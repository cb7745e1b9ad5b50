//! The media engine: what becomes of a datagram, and what goes out.
//!
//! The engine is driven from outside. Moments are nanoseconds of one monotonic
//! clock; concealment and the smoothed jitter are the caller's.

pub mod laws;
pub mod normalizer;
pub mod ports;

pub use crate::rtp::engine::normalizer::TimestampNormalizer;
pub use crate::rtp::engine::ports::{allocate_rtp_port, PortPool};

use crate::error::RtpSipError;
use crate::random::random_word;
use crate::rtp::codec;
use crate::rtp::codec::{CodecType, G711Codec};
use crate::rtp::dtmf;
use crate::rtp::dtmf::{
    DetectedDtmf, DetectorModel, DtmfDetector, DtmfPacket, DtmfSender, RtpBugFlags,
    TELEPHONE_EVENT_PT,
};
use crate::rtp::jitter;
use crate::rtp::jitter::{JitterBuffer, JitterConfig, JitterModel, JitterStats, JitterStep};
use crate::rtp::packet;
use crate::rtp::packet::{HeaderModel, PacketModel, RtpPacket, RtpPacketBuilder};
use crate::text;
use vstd::prelude::*;

verus! {

/// Payload type of comfort noise.
pub const CN_PAYLOAD_TYPE: u8 = 13;

/// Packet times between two packets of comfort noise.
pub const CN_PACING_PTIMES: u32 = 60;

/// Level of comfort noise where none was heard.
pub const CN_DEFAULT_NOISE_LEVEL: u8 = 65;

/// Whether a datagram on a shared port is a control packet.
pub open spec fn is_control(d: Seq<u8>) -> bool {
    d.len() >= 2 && 200 <= d[1] <= 211
}

/// Whether a datagram on a shared port is a control packet.
pub fn is_rtcp_packet(data: &[u8]) -> (r: bool)
    ensures
        r == is_control(data@),
{
    data.len() >= 2 && data[1] >= 200 && data[1] <= 211
}

/// Settings of an engine.
#[derive(Debug, Clone, Copy)]
pub struct RtpEngineConfig {
    pub codec: CodecType,
    /// Our source identifier, random if not given.
    pub ssrc: Option<u32>,
    pub jitter_config: JitterConfig,
    pub recv_buffer_size: usize,
    pub dtmf_buffer_size: usize,
    pub enable_dtmf: bool,
    pub dtmf_payload_type: u8,
    pub media_timeout_ms: u64,
    /// Control packets come on the same port.
    pub rtcp_mux: bool,
    /// The codec received, if another.
    pub recv_codec: Option<CodecType>,
    pub ptime_ms: u32,
    pub send_silence_when_idle: bool,
    pub hold_media_timeout_ms: u64,
    /// The only audio payload type taken, if given.
    pub audio_payload_type: Option<u8>,
}

impl RtpEngineConfig {
    /// The usual settings.
    pub open spec fn usual() -> RtpEngineConfig {
        RtpEngineConfig {
            codec: CodecType::Pcmu,
            ssrc: None,
            jitter_config: JitterConfig {
                min_delay_ms: 20,
                max_delay_ms: 200,
                target_delay_ms: 60,
                max_packets: 50,
                sample_rate: 8000,
                samples_per_packet: 160,
                nack_enabled: false,
                max_wait_before_loss: 2,
            },
            recv_buffer_size: 100,
            dtmf_buffer_size: 32,
            enable_dtmf: true,
            dtmf_payload_type: TELEPHONE_EVENT_PT,
            media_timeout_ms: 30_000,
            rtcp_mux: false,
            recv_codec: None,
            ptime_ms: 20,
            send_silence_when_idle: false,
            hold_media_timeout_ms: 1_800_000,
            audio_payload_type: None,
        }
    }
}

impl Default for RtpEngineConfig {
    fn default() -> (c: RtpEngineConfig)
        ensures
            c == RtpEngineConfig::usual(),
    {
        RtpEngineConfig {
            codec: CodecType::Pcmu,
            ssrc: None,
            jitter_config: JitterConfig::default(),
            recv_buffer_size: 100,
            dtmf_buffer_size: 32,
            enable_dtmf: true,
            dtmf_payload_type: TELEPHONE_EVENT_PT,
            media_timeout_ms: 30_000,
            rtcp_mux: false,
            recv_codec: None,
            ptime_ms: 20,
            send_silence_when_idle: false,
            hold_media_timeout_ms: 1_800_000,
            audio_payload_type: None,
        }
    }
}

/// What became of a datagram.
#[derive(Debug, Clone, Copy, PartialEq, Eq, Structural)]
pub enum ReceptionKind {
    /// It is no packet of ours.
    Dropped,
    /// It is a control packet.
    Control,
    /// It carries our own source identifier.
    OwnSource,
    /// It belongs to a digit, and may complete one.
    Digit(Option<DetectedDtmf>),
    /// It has another payload type than agreed; `first` of its stream.
    WrongType { first: bool },
    /// It asks for comfort noise.
    ComfortNoise,
    /// It was there already.
    Duplicate,
    /// It went into the jitter buffer.
    Audio(JitterStep),
}

/// What became of a datagram, and whether a new source made the stream start
/// over.
#[derive(Debug, Clone, Copy, PartialEq, Eq, Structural)]
pub struct Reception {
    pub reset: bool,
    pub kind: ReceptionKind,
}

/// What is to be played.
pub struct Playout {
    /// Frames, first to last.
    pub frames: Vec<Vec<i16>>,
    /// A gap is to be concealed.
    pub conceal: bool,
}

/// The plain part of an engine.
#[derive(Debug, Clone, Copy)]
pub struct EngineState {
    pub config: RtpEngineConfig,
    pub ssrc: u32,
    pub running: bool,
    pub recv_codec: CodecType,
    pub last_rtp_received: Option<u64>,
    pub last_cn_timestamp: Option<u64>,
    pub rtcp_mux: bool,
    pub remote_ssrc: Option<u32>,
    /// The next audio packet gets the marker.
    pub force_marker: bool,
    pub ptime_ms: u32,
    pub timestamp_normalizer: TimestampNormalizer,
    pub last_audio_sent: Option<u64>,
    pub allocated_port: Option<u16>,
    pub last_cn_level: Option<u8>,
    /// Comfort noise was the last thing sent.
    pub in_cn_silence: bool,
    pub audio_pt_mismatch_warned: bool,
    pub timeout_fired: bool,
    pub is_on_hold: bool,
    pub recv_drop_count: u64,
}

/// The media engine of one stream.
pub struct RtpEngine {
    pub state: EngineState,
    pub packet_builder: RtpPacketBuilder,
    pub jitter_buffer: JitterBuffer,
    pub dtmf_sender: DtmfSender,
    pub dtmf_detector: DtmfDetector,
}

/// The mathematical content of an engine.
#[verifier::ext_equal]
pub struct EngineModel {
    pub state: EngineState,
    pub builder: RtpPacketBuilder,
    pub jitter: JitterModel,
    pub sender: DtmfSender,
    pub detector: DetectorModel,
}

impl View for RtpEngine {
    type V = EngineModel;

    open spec fn view(&self) -> EngineModel {
        EngineModel {
            state: self.state,
            builder: self.packet_builder,
            jitter: self.jitter_buffer@,
            sender: self.dtmf_sender,
            detector: self.dtmf_detector@,
        }
    }
}

/// A packet without its padding, whose last byte counts it. Where padding is
/// said to be there and is not, there is no packet.
pub open spec fn unpadded(p: PacketModel) -> Option<PacketModel> {
    if !p.header.padding || p.payload.len() == 0 {
        Some(p)
    } else if p.payload.last() == 0 || p.payload.last() > p.payload.len() {
        None
    } else {
        Some(
            PacketModel {
                payload: p.payload.subrange(0, p.payload.len() - p.payload.last()),
                ..p
            },
        )
    }
}

impl EngineModel {
    /// The parts are sound.
    pub open spec fn valid(self) -> bool {
        &&& self.jitter.wf()
        &&& self.detector.valid()
        &&& self.state.timestamp_normalizer.valid()
        &&& self.state.timestamp_normalizer.sample_rate == 8000
        &&& self.builder.payload_type == self.state.config.codec.number()
        &&& self.builder.ssrc == self.state.ssrc
    }

    /// The counters have room for a packet, and a packet's samples can be
    /// counted.
    pub open spec fn can_receive(self) -> bool {
        self.jitter.has_room() && self.state.timestamp_normalizer.ptime_fits()
    }

    /// An engine that has done nothing.
    pub open spec fn is_fresh(self, config: RtpEngineConfig) -> bool {
        &&& config.ssrc matches Some(s) ==> self.state.ssrc == s
        &&& self.state == (EngineState {
            config,
            ssrc: self.state.ssrc,
            running: false,
            recv_codec: match config.recv_codec {
                Some(c) => c,
                None => config.codec,
            },
            last_rtp_received: None,
            last_cn_timestamp: None,
            rtcp_mux: config.rtcp_mux,
            remote_ssrc: None,
            force_marker: false,
            ptime_ms: config.ptime_ms,
            timestamp_normalizer: TimestampNormalizer::fresh(8000, config.ptime_ms),
            last_audio_sent: None,
            allocated_port: None,
            last_cn_level: None,
            in_cn_silence: false,
            audio_pt_mismatch_warned: false,
            timeout_fired: false,
            is_on_hold: false,
            recv_drop_count: 0,
        })
        &&& self.builder.payload_type == config.codec.number()
        &&& self.builder.ssrc == self.state.ssrc
        &&& self.jitter == JitterModel::empty(config.jitter_config)
        &&& self.sender == (DtmfSender {
            payload_type: config.dtmf_payload_type,
            ..DtmfSender::idle(self.state.ssrc)
        })
        &&& self.detector == DetectorModel::fresh(config.dtmf_payload_type)
    }

    /// The stream starts over.
    pub open spec fn stream_reset(self) -> EngineModel {
        EngineModel {
            state: EngineState {
                timestamp_normalizer: TimestampNormalizer::fresh(
                    self.state.timestamp_normalizer.sample_rate,
                    self.state.timestamp_normalizer.ptime_ms,
                ),
                audio_pt_mismatch_warned: false,
                ..self.state
            },
            jitter: JitterModel::empty(self.jitter.config),
            detector: DetectorModel { queue: Seq::empty(), ..self.detector.cleared() },
            ..self
        }
    }

    /// Whether a packet comes from a new source.
    pub open spec fn source_changed(self, ssrc: u32) -> bool {
        self.state.remote_ssrc is Some && self.state.remote_ssrc != Some(ssrc)
    }

    /// A packet of a source was heard.
    pub open spec fn heard(self, ssrc: u32, now_ns: u64) -> EngineModel {
        let m = EngineModel {
            state: EngineState {
                last_rtp_received: Some(now_ns),
                timeout_fired: false,
                remote_ssrc: Some(ssrc),
                ..self.state
            },
            ..self
        };
        if self.source_changed(ssrc) {
            m.stream_reset()
        } else {
            m
        }
    }

    /// A packet of a digit.
    pub open spec fn digit_received(self, p: PacketModel, now_ns: u64) -> (
        EngineModel,
        ReceptionKind,
    ) {
        let (d, r) = self.detector.processed(
            p.header.payload_type,
            p.header.sequence_number,
            p.header.timestamp,
            p.payload,
            now_ns,
        );
        (EngineModel { detector: d, ..self }, ReceptionKind::Digit(r))
    }

    /// A packet of comfort noise: its first byte is the level.
    pub open spec fn noise_received(self, p: PacketModel) -> (EngineModel, ReceptionKind) {
        (
            EngineModel {
                state: EngineState {
                    last_cn_level: if p.payload.len() > 0 {
                        Some(p.payload[0])
                    } else {
                        self.state.last_cn_level
                    },
                    ..self.state
                },
                ..self
            },
            ReceptionKind::ComfortNoise,
        )
    }

    /// The jitter buffer as a packet finds it: a marker empties it.
    pub open spec fn jitter_before(self, marker: bool) -> JitterModel {
        if marker {
            JitterModel {
                initial_buffering_done: false,
                packets: Seq::empty(),
                last_played: None,
                next_sequence: None,
                stats: JitterStats { buffer_size: 0, ..self.jitter.stats },
                ..self.jitter
            }
        } else {
            self.jitter
        }
    }

    /// An audio packet: its timestamp is brought to the local base, and it goes
    /// into the jitter buffer unless it is there.
    pub open spec fn audio_received(self, p: PacketModel, now_ns: u64) -> (
        EngineModel,
        ReceptionKind,
    ) {
        let n = self.state.timestamp_normalizer;
        let local = PacketModel {
            header: HeaderModel { timestamp: n.local(p.header.timestamp), ..p.header },
            ..p
        };
        let m = EngineModel {
            state: EngineState {
                timestamp_normalizer: n.after(p.header.timestamp),
                ..self.state
            },
            jitter: self.jitter_before(p.header.marker),
            ..self
        };
        if jitter::holds(m.jitter.packets, p.header.sequence_number) {
            (m, ReceptionKind::Duplicate)
        } else {
            let (j, step) = m.jitter.pushed(local, now_ns);
            (EngineModel { jitter: j, ..m }, ReceptionKind::Audio(step))
        }
    }

    /// Whether a payload type is not the one agreed.
    pub open spec fn wrong_type(self, pt: u8) -> bool {
        self.state.config.audio_payload_type matches Some(e) && pt != e && pt != CN_PAYLOAD_TYPE
    }

    /// A packet of the source that is heard, by its payload type.
    pub open spec fn sorted(self, p: PacketModel, now_ns: u64) -> (EngineModel, ReceptionKind) {
        let pt = p.header.payload_type;
        if self.state.config.enable_dtmf && pt == self.state.config.dtmf_payload_type {
            self.digit_received(p, now_ns)
        } else if self.wrong_type(pt) {
            (
                EngineModel {
                    state: EngineState { audio_pt_mismatch_warned: true, ..self.state },
                    ..self
                },
                ReceptionKind::WrongType { first: !self.state.audio_pt_mismatch_warned },
            )
        } else if pt == CN_PAYLOAD_TYPE {
            self.noise_received(p)
        } else {
            self.audio_received(p, now_ns)
        }
    }

    /// What becomes of a packet.
    pub open spec fn received(self, p: PacketModel, now_ns: u64) -> (EngineModel, Reception) {
        let dropped = Reception { reset: false, kind: ReceptionKind::Dropped };
        if p.header.version != 2 || unpadded(p) is None {
            (self, dropped)
        } else if p.header.ssrc == self.state.ssrc {
            (self, Reception { reset: false, kind: ReceptionKind::OwnSource })
        } else {
            let (m, kind) = self.heard(p.header.ssrc, now_ns).sorted(
                unpadded(p)->Some_0,
                now_ns,
            );
            (m, Reception { reset: self.source_changed(p.header.ssrc), kind })
        }
    }
}

impl RtpEngine {
    /// Create an engine.
    pub fn new(config: RtpEngineConfig) -> (e: RtpEngine)
        requires
            config.jitter_config.is_valid(),
        ensures
            e@.is_fresh(config),
            e@.valid(),
    {
        let ssrc: u32 = match config.ssrc {
            Some(s) => s,
            None => (random_word() % 0x1_0000_0000) as u32,
        };
        let recv_codec = match config.recv_codec {
            Some(c) => c,
            None => config.codec,
        };
        RtpEngine {
            state: EngineState {
                config,
                ssrc,
                running: false,
                recv_codec,
                last_rtp_received: None,
                last_cn_timestamp: None,
                rtcp_mux: config.rtcp_mux,
                remote_ssrc: None,
                force_marker: false,
                ptime_ms: config.ptime_ms,
                timestamp_normalizer: TimestampNormalizer::with_ptime(
                    config.codec.sample_rate(),
                    config.ptime_ms,
                ),
                last_audio_sent: None,
                allocated_port: None,
                last_cn_level: None,
                in_cn_silence: false,
                audio_pt_mismatch_warned: false,
                timeout_fired: false,
                is_on_hold: false,
                recv_drop_count: 0,
            },
            packet_builder: RtpPacketBuilder::new(config.codec.payload_type(), ssrc),
            jitter_buffer: JitterBuffer::with_config(config.jitter_config),
            dtmf_sender: DtmfSender::with_payload_type(ssrc, config.dtmf_payload_type),
            dtmf_detector: DtmfDetector::with_payload_type(config.dtmf_payload_type),
        }
    }

    /// Create an engine with the usual settings.
    pub fn with_defaults() -> (e: RtpEngine)
        ensures
            e@.is_fresh(RtpEngineConfig::usual()),
            e@.valid(),
    {
        RtpEngine::new(RtpEngineConfig::default())
    }

    /// Whether the counters have room for a packet and a packet's samples can be
    /// counted.
    pub fn can_receive(&self) -> (r: bool)
        requires
            self@.valid(),
        ensures
            r == self@.can_receive(),
    {
        self.jitter_buffer.has_room() && self.state.timestamp_normalizer.ptime_ms as u64 * 8000
            <= u32::MAX as u64
    }

    /// Whether the counters have room to play all that is held.
    pub fn can_play(&self) -> (r: bool)
        ensures
            r == self@.jitter.has_room_to_drain(),
    {
        self.jitter_buffer.has_room_to_drain()
    }

    /// Start over: the jitter buffer, the digits, the timestamps and the
    /// warning on payload types. The settings stay.
    pub fn reset_stream_state(&mut self)
        requires
            old(self)@.valid(),
        ensures
            final(self)@ == old(self)@.stream_reset(),
            final(self)@.valid(),
    {
        self.jitter_buffer.reset();
        self.dtmf_detector.reset();
        self.state.timestamp_normalizer.reset();
        self.state.audio_pt_mismatch_warned = false;
        assert(self@ =~= old(self)@.stream_reset());
    }

    fn hear(&mut self, ssrc: u32, now_ns: u64) -> (reset: bool)
        requires
            old(self)@.valid(),
            old(self)@.can_receive(),
        ensures
            final(self)@ == old(self)@.heard(ssrc, now_ns),
            reset == old(self)@.source_changed(ssrc),
            final(self)@.valid(),
            final(self)@.can_receive(),
    {
        let changed: bool = match self.state.remote_ssrc {
            Some(s) => s != ssrc,
            None => false,
        };
        self.state.last_rtp_received = Some(now_ns);
        self.state.timeout_fired = false;
        self.state.remote_ssrc = Some(ssrc);
        if changed {
            self.reset_stream_state();
        }
        assert(self@ =~= old(self)@.heard(ssrc, now_ns));
        changed
    }

    fn take_audio(&mut self, packet: RtpPacket, now_ns: u64) -> (kind: ReceptionKind)
        requires
            old(self)@.valid(),
            old(self)@.can_receive(),
        ensures
            (final(self)@, kind) == old(self)@.audio_received(packet@, now_ns),
            final(self)@.valid(),
    {
        let mut packet = packet;
        let ghost p = packet@;
        packet.header.timestamp = self.state.timestamp_normalizer.normalize(
            packet.header.timestamp,
        );
        if packet.header.marker {
            self.jitter_buffer.reset_initial_buffering();
        }
        let ghost m = self@;
        proof {
            let n = old(self)@.state.timestamp_normalizer;
            assert(m =~= (EngineModel {
                state: EngineState {
                    timestamp_normalizer: n.after(p.header.timestamp),
                    ..old(self)@.state
                },
                jitter: old(self)@.jitter_before(p.header.marker),
                ..old(self)@
            }));
        }
        if self.jitter_buffer.contains_seq(packet.header.sequence_number) {
            return ReceptionKind::Duplicate;
        }
        let step = self.jitter_buffer.push(packet, now_ns);
        ReceptionKind::Audio(step)
    }

    #[verifier::rlimit(40)]
    fn sort(&mut self, packet: RtpPacket, now_ns: u64) -> (kind: ReceptionKind)
        requires
            old(self)@.valid(),
            old(self)@.can_receive(),
        ensures
            (final(self)@, kind) == old(self)@.sorted(packet@, now_ns),
            final(self)@.valid(),
    {
        let pt: u8 = packet.header.payload_type;
        if self.state.config.enable_dtmf && pt == self.state.config.dtmf_payload_type {
            let r = self.dtmf_detector.process_rtp(
                pt,
                packet.header.sequence_number,
                packet.header.timestamp,
                packet.payload.as_slice(),
                now_ns,
            );
            return ReceptionKind::Digit(r);
        }
        if let Some(e) = self.state.config.audio_payload_type {
            if pt != e && pt != CN_PAYLOAD_TYPE {
                let first: bool = !self.state.audio_pt_mismatch_warned;
                self.state.audio_pt_mismatch_warned = true;
                return ReceptionKind::WrongType { first };
            }
        }
        if pt == CN_PAYLOAD_TYPE {
            if packet.payload.len() > 0 {
                self.state.last_cn_level = Some(packet.payload[0]);
            }
            return ReceptionKind::ComfortNoise;
        }
        self.take_audio(packet, now_ns)
    }

    /// Take in a packet that came at `now_ns`.
    pub fn receive_packet(&mut self, packet: RtpPacket, now_ns: u64) -> (r: Reception)
        requires
            old(self)@.valid(),
            old(self)@.can_receive(),
        ensures
            (final(self)@, r) == old(self)@.received(packet@, now_ns),
            final(self)@.valid(),
    {
        if packet.header.version != 2 {
            return Reception { reset: false, kind: ReceptionKind::Dropped };
        }
        let mut packet = packet;
        let ghost p = packet@;
        let n: usize = packet.payload.len();
        if packet.header.padding && n > 0 {
            let pad: usize = packet.payload[n - 1] as usize;
            if pad == 0 || pad > n {
                return Reception { reset: false, kind: ReceptionKind::Dropped };
            }
            packet.payload.truncate(n - pad);
            assert(packet@ =~= unpadded(p)->Some_0);
        }
        if packet.header.ssrc == self.state.ssrc {
            return Reception { reset: false, kind: ReceptionKind::OwnSource };
        }
        let reset: bool = self.hear(packet.header.ssrc, now_ns);
        let kind = self.sort(packet, now_ns);
        Reception { reset, kind }
    }

    /// Take in a datagram that came at `now_ns`: one too short for a packet is
    /// dropped, as is one that cannot be parsed.
    pub fn receive(&mut self, data: &[u8], now_ns: u64) -> (r: Reception)
        requires
            old(self)@.valid(),
            old(self)@.can_receive(),
            data@.len() >= 12 && !(old(self)@.state.rtcp_mux && is_control(data@))
                ==> packet::extension_fits(data@),
        ensures
            final(self)@.valid(),
            data@.len() < 12 ==> final(self)@ == old(self)@ && r == (Reception {
                reset: false,
                kind: ReceptionKind::Dropped,
            }),
            data@.len() >= 12 && old(self)@.state.rtcp_mux && is_control(data@) ==> final(self)@
                == old(self)@ && r == (Reception { reset: false, kind: ReceptionKind::Control }),
            data@.len() >= 12 && !(old(self)@.state.rtcp_mux && is_control(data@))
                ==> match packet::parsed_packet(data@) {
                Ok(p) => (final(self)@, r) == old(self)@.received(p, now_ns),
                Err(_) => final(self)@ == old(self)@ && r == (Reception {
                    reset: false,
                    kind: ReceptionKind::Dropped,
                }),
            },
            !packet::has_extension(data@) && data@.len() >= 12 && !(old(self)@.state.rtcp_mux
                && is_control(data@)) ==> match packet::plain_packet(data@) {
                Some(p) => (final(self)@, r) == old(self)@.received(p, now_ns),
                None => final(self)@ == old(self)@ && r == (Reception {
                    reset: false,
                    kind: ReceptionKind::Dropped,
                }),
            },
    {
        if data.len() < 12 {
            return Reception { reset: false, kind: ReceptionKind::Dropped };
        }
        if self.state.rtcp_mux && is_rtcp_packet(data) {
            return Reception { reset: false, kind: ReceptionKind::Control };
        }
        match packet::parse_rtp_packet(data) {
            Ok(p) => self.receive_packet(p, now_ns),
            Err(_) => Reception { reset: false, kind: ReceptionKind::Dropped },
        }
    }

    /// What is ready to play, decoded; `jitter_target_ms` is the delay that the
    /// smoothed jitter calls for. Where nothing is ready though playing has
    /// begun, a gap is to be concealed.
    pub fn play(&mut self, jitter_target_ms: u32) -> (out: Playout)
        requires
            old(self)@.valid(),
            old(self)@.jitter.has_room_to_drain(),
        ensures
            ({
                let (j, ps) = old(self)@.jitter.drained(jitter_target_ms);
                &&& final(self)@ == (EngineModel { jitter: j, ..old(self)@ })
                &&& out.frames@.len() == ps.len()
                &&& forall|i: int|
                    0 <= i < ps.len() ==> (#[trigger] out.frames@[i])@ == codec::samples_of(
                        old(self)@.state.recv_codec,
                        ps[i].payload,
                    )
                &&& out.conceal == (ps.len() == 0 && (j.initial_buffering_done
                    || j.playout_started))
            }),
            final(self)@.valid(),
    {
        let packets = self.jitter_buffer.drain(jitter_target_ms);
        let decoder = G711Codec::new(self.state.recv_codec);
        let mut frames: Vec<Vec<i16>> = Vec::new();
        let mut i: usize = 0;
        while i < packets.len()
            invariant
                i <= packets@.len(),
                frames@.len() == i,
                decoder.codec_type == self.state.recv_codec,
                forall|k: int|
                    0 <= k < i ==> (#[trigger] frames@[k])@ == codec::samples_of(
                        self.state.recv_codec,
                        packets@[k].payload@,
                    ),
            decreases packets@.len() - i,
        {
            frames.push(decoder.decode(packets[i].payload.as_slice()));
            i += 1;
        }
        let conceal: bool = frames.len() == 0 && self.jitter_buffer.is_ready();
        Playout { frames, conceal }
    }
}

// ---------------------------------------------------------------------------
// Settings and state
// ---------------------------------------------------------------------------

impl EngineState {
    /// The timeout that holds now.
    pub open spec fn timeout_ms(self) -> u64 {
        if self.is_on_hold {
            self.config.hold_media_timeout_ms
        } else {
            self.config.media_timeout_ms
        }
    }

    /// Nothing was heard for as long as the timeout.
    pub open spec fn timed_out(self, now_ns: u64) -> bool {
        self.last_rtp_received matches Some(t) && (if now_ns < t {
            0
        } else {
            now_ns - t
        }) >= self.timeout_ms() * 1_000_000
    }
}

impl EngineModel {
    /// A look at the timeout, and whether to tell of it.
    pub open spec fn timeout_checked(self, now_ns: u64) -> (EngineModel, bool) {
        let timed_out = self.state.timed_out(now_ns);
        (
            EngineModel {
                state: EngineState {
                    timeout_fired: self.state.timeout_fired || timed_out,
                    ..self.state
                },
                ..self
            },
            timed_out && !self.state.timeout_fired,
        )
    }
}

impl RtpEngine {
    /// Our source identifier.
    pub fn ssrc(&self) -> (n: u32)
        ensures
            n == self@.state.ssrc,
    {
        self.state.ssrc
    }

    /// The codec sent.
    pub fn codec_type(&self) -> (c: CodecType)
        ensures
            c == self@.state.config.codec,
    {
        self.state.config.codec
    }

    /// Set the workarounds of the digit sender.
    pub fn set_rtp_bug_flags(&mut self, flags: RtpBugFlags)
        ensures
            final(self)@ == (EngineModel {
                sender: DtmfSender { rtp_bugs: flags, ..old(self)@.sender },
                ..old(self)@
            }),
    {
        self.dtmf_sender.set_rtp_bugs(flags);
    }

    /// The workarounds of the digit sender.
    pub fn rtp_bug_flags(&self) -> (f: RtpBugFlags)
        ensures
            f == self@.sender.rtp_bugs,
    {
        self.dtmf_sender.rtp_bugs()
    }

    /// Whether the engine runs.
    pub fn is_running(&self) -> (r: bool)
        ensures
            r == self@.state.running,
    {
        self.state.running
    }

    /// Start to run; an engine that runs cannot be started.
    pub fn start(&mut self) -> (r: Result<(), RtpSipError>)
        ensures
            match r {
                Ok(_) => !old(self)@.state.running,
                Err(e) => old(self)@.state.running && e is AlreadyStarted,
            },
            final(self)@ == (EngineModel {
                state: EngineState { running: true, ..old(self)@.state },
                ..old(self)@
            }),
    {
        if self.state.running {
            return Err(RtpSipError::AlreadyStarted);
        }
        self.state.running = true;
        Ok(())
    }

    /// Stop; gives the port to release, once.
    pub fn stop(&mut self) -> (port: Option<u16>)
        ensures
            port == old(self)@.state.allocated_port,
            final(self)@ == (EngineModel {
                state: EngineState { running: false, allocated_port: None, ..old(self)@.state },
                ..old(self)@
            }),
    {
        self.state.running = false;
        let port = self.state.allocated_port;
        self.state.allocated_port = None;
        port
    }

    /// Note the port to release at the end.
    pub fn set_allocated_port(&mut self, port: u16)
        ensures
            final(self)@ == (EngineModel {
                state: EngineState { allocated_port: Some(port), ..old(self)@.state },
                ..old(self)@
            }),
    {
        self.state.allocated_port = Some(port);
    }

    /// When the last packet was heard.
    pub fn last_rtp_received(&self) -> (t: Option<u64>)
        ensures
            t == self@.state.last_rtp_received,
    {
        self.state.last_rtp_received
    }

    /// The timeout that holds now, in milliseconds.
    pub fn effective_media_timeout(&self) -> (ms: u64)
        ensures
            ms == self@.state.timeout_ms(),
    {
        if self.state.is_on_hold {
            self.state.config.hold_media_timeout_ms
        } else {
            self.state.config.media_timeout_ms
        }
    }

    /// Whether nothing was heard for as long as the timeout; never before the
    /// first packet.
    pub fn is_media_timed_out(&self, now_ns: u64) -> (r: bool)
        ensures
            r == self@.state.timed_out(now_ns),
    {
        match self.state.last_rtp_received {
            Some(t) => {
                let waited: u128 = if now_ns < t {
                    0
                } else {
                    (now_ns - t) as u128
                };
                waited >= self.effective_media_timeout() as u128 * 1_000_000
            },
            None => false,
        }
    }

    /// Look whether the media has timed out; says so once, until a packet is
    /// heard again.
    pub fn check_timeout(&mut self, now_ns: u64) -> (fire: bool)
        ensures
            (final(self)@, fire) == old(self)@.timeout_checked(now_ns),
    {
        if self.is_media_timed_out(now_ns) && !self.state.timeout_fired {
            self.state.timeout_fired = true;
            true
        } else {
            false
        }
    }

    /// The last level of comfort noise heard.
    pub fn last_cn_level(&self) -> (level: Option<u8>)
        ensures
            level == self@.state.last_cn_level,
    {
        self.state.last_cn_level
    }

    /// The amplitude of comfort noise: twice what the level is below 127.
    pub fn cn_amplitude(&self) -> (a: i16)
        ensures
            a == match self@.state.last_cn_level {
                Some(level) => if level > 127 {
                    0int
                } else {
                    (127 - level) * 2
                },
                None => 0,
            },
    {
        match self.state.last_cn_level {
            Some(level) => {
                if level > 127 {
                    0
                } else {
                    (127 - level as i16) * 2
                }
            },
            None => 0,
        }
    }

    /// Expect control packets on the same port, or not.
    pub fn enable_rtcp_mux(&mut self, enabled: bool)
        ensures
            final(self)@ == (EngineModel {
                state: EngineState { rtcp_mux: enabled, ..old(self)@.state },
                ..old(self)@
            }),
    {
        self.state.rtcp_mux = enabled;
    }

    /// Whether control packets come on the same port.
    pub fn is_rtcp_mux_enabled(&self) -> (r: bool)
        ensures
            r == self@.state.rtcp_mux,
    {
        self.state.rtcp_mux
    }

    /// Set the codec received.
    pub fn set_recv_codec(&mut self, codec_type: CodecType)
        ensures
            final(self)@ == (EngineModel {
                state: EngineState { recv_codec: codec_type, ..old(self)@.state },
                ..old(self)@
            }),
    {
        self.state.recv_codec = codec_type;
    }

    /// The codec received.
    pub fn recv_codec_type(&self) -> (c: CodecType)
        ensures
            c == self@.state.recv_codec,
    {
        self.state.recv_codec
    }

    /// How long a packet is, in milliseconds.
    pub fn ptime(&self) -> (ms: u32)
        ensures
            ms == self@.state.ptime_ms,
    {
        self.state.ptime_ms
    }

    /// Set how long a packet is.
    pub fn set_ptime(&mut self, ptime_ms: u32)
        ensures
            final(self)@ == (EngineModel {
                state: EngineState {
                    ptime_ms,
                    timestamp_normalizer: TimestampNormalizer {
                        ptime_ms,
                        ..old(self)@.state.timestamp_normalizer
                    },
                    ..old(self)@.state
                },
                ..old(self)@
            }),
    {
        self.state.ptime_ms = ptime_ms;
        self.state.timestamp_normalizer.set_ptime(ptime_ms);
    }

    /// Samples of a packet.
    pub fn samples_per_packet(&self) -> (n: u32)
        requires
            8000 * self@.state.ptime_ms <= u32::MAX,
        ensures
            n == 8 * self@.state.ptime_ms,
    {
        self.state.config.codec.sample_rate() * self.state.ptime_ms / 1000
    }

    /// Put the call on hold, or take it off.
    pub fn set_hold_state(&mut self, on_hold: bool)
        ensures
            final(self)@ == (EngineModel {
                state: EngineState { is_on_hold: on_hold, ..old(self)@.state },
                ..old(self)@
            }),
    {
        self.state.is_on_hold = on_hold;
    }

    /// Whether the call is on hold.
    pub fn is_on_hold(&self) -> (r: bool)
        ensures
            r == self@.state.is_on_hold,
    {
        self.state.is_on_hold
    }

    /// The source that is heard.
    pub fn remote_ssrc(&self) -> (s: Option<u32>)
        ensures
            s == self@.state.remote_ssrc,
    {
        self.state.remote_ssrc
    }

    /// Have the next audio packet marked.
    pub fn request_marker(&mut self)
        ensures
            final(self)@ == (EngineModel {
                state: EngineState { force_marker: true, ..old(self)@.state },
                ..old(self)@
            }),
    {
        self.state.force_marker = true;
    }

    /// Counters of the jitter buffer.
    pub fn jitter_stats(&self) -> (s: JitterStats)
        ensures
            s == (JitterStats {
                buffer_delay_ms: self@.jitter.current_delay_ms,
                ..self@.jitter.stats
            }),
    {
        self.jitter_buffer.stats()
    }

    /// Empty the jitter buffer.
    pub fn reset_jitter_buffer(&mut self)
        requires
            old(self)@.valid(),
        ensures
            final(self)@ == (EngineModel {
                jitter: JitterModel::empty(old(self)@.jitter.config),
                ..old(self)@
            }),
            final(self)@.valid(),
    {
        self.jitter_buffer.reset();
    }

    /// Whether digits are detected.
    pub fn is_dtmf_enabled(&self) -> (r: bool)
        ensures
            r == self@.state.config.enable_dtmf,
    {
        self.state.config.enable_dtmf
    }

    /// The payload type of digits.
    pub fn dtmf_payload_type(&self) -> (pt: u8)
        ensures
            pt == self@.state.config.dtmf_payload_type,
    {
        self.state.config.dtmf_payload_type
    }

    /// Forget the digits heard.
    pub fn reset_dtmf_detector(&mut self)
        ensures
            final(self)@ == (EngineModel {
                detector: DetectorModel { queue: Seq::empty(), ..old(self)@.detector.cleared() },
                ..old(self)@
            }),
            old(self)@.valid() ==> final(self)@.valid(),
    {
        self.dtmf_detector.reset();
    }

    /// Count a frame that could not be handed on; gives the count where it is
    /// worth a warning, at the first and at every hundredth after it.
    pub fn count_dropped_frame(&mut self) -> (warn: Option<u64>)
        requires
            old(self)@.state.recv_drop_count < u64::MAX,
        ensures
            final(self)@ == (EngineModel {
                state: EngineState {
                    recv_drop_count: (old(self)@.state.recv_drop_count + 1) as u64,
                    ..old(self)@.state
                },
                ..old(self)@
            }),
            warn == if (old(self)@.state.recv_drop_count + 1) % 100 == 1 {
                Some((old(self)@.state.recv_drop_count + 1) as u64)
            } else {
                None
            },
    {
        self.state.recv_drop_count = self.state.recv_drop_count + 1;
        if self.state.recv_drop_count % 100 == 1 {
            Some(self.state.recv_drop_count)
        } else {
            None
        }
    }
}

// ---------------------------------------------------------------------------
// Sending
// ---------------------------------------------------------------------------

/// A packet with a byte for each of so many samples is within the address
/// space.
pub open spec fn samples_fit(n: nat) -> bool {
    32 + n <= isize::MAX
}

/// Whether a packet can carry so many samples.
pub fn can_carry(n: usize) -> (r: bool)
    ensures
        r == samples_fit(n as nat),
{
    n <= isize::MAX as usize - 32
}

/// Bytes that encode samples.
pub open spec fn encodes(c: CodecType, samples: Seq<i16>, data: Seq<u8>) -> bool {
    data.len() == samples.len() && forall|i: int|
        0 <= i < data.len() ==> c.is_byte(samples[i], #[trigger] data[i])
}

impl EngineModel {
    /// The engine after an audio packet: the reasons for a marker are used up.
    pub open spec fn audio_out(self, samples: nat) -> EngineModel {
        EngineModel {
            state: EngineState { force_marker: false, in_cn_silence: false, ..self.state },
            builder: self.builder.advanced((samples % 0x1_0000_0000) as u32),
            ..self
        }
    }

    /// Whether the next audio packet gets the marker: it was asked for, or
    /// voice comes back after comfort noise.
    pub open spec fn marker_due(self) -> bool {
        self.state.force_marker || self.state.in_cn_silence
    }

    /// Whether comfort noise may go out: not within sixty packets of the last.
    pub open spec fn noise_due(self, now_ns: u64) -> bool {
        match self.state.last_cn_timestamp {
            Some(t) => (if now_ns < t {
                0
            } else {
                (now_ns - t) / 1_000_000
            }) >= CN_PACING_PTIMES * self.state.ptime_ms,
            None => true,
        }
    }

    /// The engine after comfort noise went out.
    pub open spec fn noise_out(self, now_ns: u64) -> EngineModel {
        EngineModel {
            state: EngineState {
                last_cn_timestamp: Some(now_ns),
                in_cn_silence: true,
                ..self.state
            },
            ..self
        }
    }

    /// The packet of comfort noise: the level heard, and marked if it is the
    /// first.
    pub open spec fn noise_packet(self) -> PacketModel {
        let level = match self.state.last_cn_level {
            Some(l) => l,
            None => CN_DEFAULT_NOISE_LEVEL,
        };
        let p = self.builder.next_packet(seq![level, 0u8], !self.state.in_cn_silence);
        PacketModel { header: HeaderModel { payload_type: CN_PAYLOAD_TYPE, ..p.header }, ..p }
    }
}

impl RtpEngine {
    /// The packet that carries samples, marked if asked for or due.
    pub fn send_audio_with_marker(&mut self, samples: &[i16], marker: bool) -> (r: Result<
        Vec<u8>,
        RtpSipError,
    >)
        requires
            samples_fit(samples@.len()),
            old(self)@.valid(),
        ensures
            r matches Ok(b) && exists|data: Seq<u8>|
                {
                    &&& #[trigger] encodes(old(self)@.state.config.codec, samples@, data)
                    &&& b@ == packet::plain_bytes(
                        old(self)@.builder.next_packet(data, marker || old(self)@.marker_due()),
                    )
                },
            final(self)@ == old(self)@.audio_out(samples@.len()),
            final(self)@.valid(),
    {
        let marked: bool = marker || self.state.force_marker || self.state.in_cn_silence;
        self.state.force_marker = false;
        self.state.in_cn_silence = false;
        let encoder = G711Codec::new(self.state.config.codec);
        let data = encoder.encode(samples);
        let ghost d = data@;
        let count: u32 = (samples.len() as u64 % 0x1_0000_0000) as u32;
        let p = self.packet_builder.build_with_marker(data, count, marked);
        proof {
            assert(encodes(old(self)@.state.config.codec, samples@, d));
            assert(packet::extension_size(p@.header) == 0);
            assert(self@ =~= old(self)@.audio_out(samples@.len()));
        }
        packet::serialize_rtp_packet(&p)
    }

    /// The packet that carries samples, marked if that is due.
    pub fn send_audio(&mut self, samples: &[i16]) -> (r: Result<Vec<u8>, RtpSipError>)
        requires
            samples_fit(samples@.len()),
            samples@.len() % 0x1_0000_0000 > 0 || old(self)@.marker_due(),
            old(self)@.valid(),
        ensures
            r matches Ok(b) && exists|data: Seq<u8>|
                {
                    &&& #[trigger] encodes(old(self)@.state.config.codec, samples@, data)
                    &&& b@ == packet::plain_bytes(
                        old(self)@.builder.next_packet(data, old(self)@.marker_due()),
                    )
                },
            final(self)@ == old(self)@.audio_out(samples@.len()),
            final(self)@.valid(),
    {
        self.send_audio_with_marker(samples, false)
    }

    /// Note that audio went out.
    pub fn audio_sent(&mut self, now_ns: u64)
        ensures
            final(self)@ == (EngineModel {
                state: EngineState { last_audio_sent: Some(now_ns), ..old(self)@.state },
                ..old(self)@
            }),
    {
        self.state.last_audio_sent = Some(now_ns);
    }

    /// Whether silence is to be sent: no audio for longer than a packet.
    pub fn silence_due(&self, now_ns: u64) -> (r: bool)
        ensures
            r == match self@.state.last_audio_sent {
                Some(t) => now_ns > t && now_ns - t > self@.state.ptime_ms * 1_000_000,
                None => true,
            },
    {
        match self.state.last_audio_sent {
            Some(t) => now_ns > t && now_ns - t > self.state.ptime_ms as u64 * 1_000_000,
            None => true,
        }
    }

    /// The packet of comfort noise, if it may go out.
    pub fn send_comfort_noise(&mut self, now_ns: u64) -> (r: Result<Option<Vec<u8>>, RtpSipError>)
        requires
            8000 * old(self)@.state.ptime_ms <= u32::MAX,
        ensures
            match r {
                Ok(Some(b)) => {
                    &&& old(self)@.noise_due(now_ns)
                    &&& b@ == packet::plain_bytes(old(self)@.noise_packet())
                    &&& final(self)@ == (EngineModel {
                        builder: old(self)@.builder.advanced(
                            (8 * old(self)@.state.ptime_ms) as u32,
                        ),
                        ..old(self)@
                    })
                },
                Ok(None) => !old(self)@.noise_due(now_ns) && final(self)@ == old(self)@,
                Err(_) => false,
            },
    {
        if let Some(t) = self.state.last_cn_timestamp {
            let waited: u64 = if now_ns < t {
                0
            } else {
                (now_ns - t) / 1_000_000
            };
            assert(CN_PACING_PTIMES * self.state.ptime_ms == 60 * self.state.ptime_ms);
            let pacing: u64 = CN_PACING_PTIMES as u64 * self.state.ptime_ms as u64;
            if waited < pacing {
                return Ok(None);
            }
        }
        let level: u8 = match self.state.last_cn_level {
            Some(l) => l,
            None => CN_DEFAULT_NOISE_LEVEL,
        };
        let mut payload: Vec<u8> = Vec::new();
        payload.push(level);
        payload.push(0);
        assert(payload@ =~= seq![level, 0u8]);
        let samples: u32 = self.samples_per_packet();
        let mut p = self.packet_builder.build_with_marker(
            payload,
            samples,
            !self.state.in_cn_silence,
        );
        p.header.payload_type = CN_PAYLOAD_TYPE;
        proof {
            assert(p@ =~= old(self)@.noise_packet());
            assert(packet::extension_size(p@.header) == 0);
        }
        match packet::serialize_rtp_packet(&p) {
            Ok(b) => Ok(Some(b)),
            Err(e) => Err(e),
        }
    }

    /// Note that comfort noise went out.
    pub fn comfort_noise_sent(&mut self, now_ns: u64)
        ensures
            final(self)@ == old(self)@.noise_out(now_ns),
    {
        self.state.last_cn_timestamp = Some(now_ns);
        self.state.in_cn_silence = true;
    }

    /// The packets of a digit, in the sequence of the audio.
    pub fn send_dtmf(&mut self, digit: char, duration_ms: u32) -> (r: Result<
        Vec<DtmfPacket>,
        RtpSipError,
    >)
        requires
            dtmf::names_event(digit) ==> DtmfSender::digit_fits(
                duration_ms,
                old(self)@.state.ptime_ms,
            ),
        ensures
            match r {
                Ok(v) => exists|e: dtmf::DtmfEvent|
                    {
                        let m = old(self)@;
                        let s = m.sender.started(
                            e,
                            duration_ms,
                            m.builder.timestamp,
                            m.state.ptime_ms,
                        );
                        let q = m.sender.end_seq(m.builder.sequence).wrapping_add(1);
                        let n = DtmfSender::intervals(duration_ms, m.state.ptime_ms);
                        let q2 = s.seq_after(n, m.state.ptime_ms, q);
                        &&& #[trigger] e.character() == text::ascii_upper(digit)
                        &&& dtmf::packets_of(v@) == dtmf::digit_packets(
                            m.sender,
                            e,
                            duration_ms,
                            m.state.ptime_ms,
                            m.builder.sequence,
                            m.builder.timestamp,
                        )
                        &&& final(self)@ == (EngineModel {
                            sender: s.after(n, m.state.ptime_ms).ended(),
                            builder: RtpPacketBuilder {
                                sequence: s.after(n, m.state.ptime_ms).end_seq(q2),
                                ..m.builder
                            },
                            ..m
                        })
                    },
                Err(e) => {
                    &&& forall|e: dtmf::DtmfEvent| e.character() != text::ascii_upper(digit)
                    &&& e.is_rtp("Invalid DTMF digit: "@ + seq![digit])
                    &&& final(self)@ == old(self)@
                },
            },
    {
        let mut seq: u16 = self.packet_builder.sequence();
        let ts: u32 = self.packet_builder.timestamp();
        match self.dtmf_sender.generate_digit(
            digit,
            duration_ms,
            self.state.ptime_ms,
            &mut seq,
            ts,
        ) {
            Ok(v) => {
                self.packet_builder.set_sequence(seq);
                proof {
                    let m = old(self)@;
                    let e = choose|e: dtmf::DtmfEvent|
                        {
                            let s = m.sender.started(e, duration_ms, ts, m.state.ptime_ms);
                            let q = m.sender.end_seq(m.builder.sequence).wrapping_add(1);
                            let n = DtmfSender::intervals(duration_ms, m.state.ptime_ms);
                            let q2 = s.seq_after(n, m.state.ptime_ms, q);
                            &&& #[trigger] e.character() == text::ascii_upper(digit)
                            &&& dtmf::packets_of(v@) == m.sender.start_packets(
                                e,
                                ts,
                                m.state.ptime_ms,
                                m.builder.sequence,
                            ) + s.packets_after(n, m.state.ptime_ms, q) + s.after(
                                n,
                                m.state.ptime_ms,
                            ).end_packets(q2)
                            &&& self.dtmf_sender == s.after(n, m.state.ptime_ms).ended()
                            &&& seq == s.after(n, m.state.ptime_ms).end_seq(q2)
                        };
                    assert(e.character() == text::ascii_upper(digit));
                }
                Ok(v)
            },
            Err(e) => Err(e),
        }
    }

    /// Whether to wait a packet's time behind the `i`-th of `n` packets of a
    /// digit: the last three go out at once.
    pub fn waits_after(i: usize, n: usize) -> (r: bool)
        ensures
            r == (i < n - 3),
    {
        n >= 3 && i < n - 3
    }

    /// Whether to wait behind the `i`-th of `n` digits: not behind the last.
    pub fn waits_after_digit(i: usize, n: usize) -> (r: bool)
        ensures
            r == (i < n - 1),
    {
        n >= 1 && i < n - 1
    }
}

// ---------------------------------------------------------------------------
// Laws
// ---------------------------------------------------------------------------

/// A packet that is dropped, or that carries our own source identifier, changes
/// nothing: it keeps no timeout away.
pub proof fn law_refused_changes_nothing(m: EngineModel, p: PacketModel, now_ns: u64)
    requires
        ({
            let kind = m.received(p, now_ns).1.kind;
            kind is Dropped || kind is OwnSource
        }),
    ensures
        m.received(p, now_ns) == (m, Reception { reset: false, kind: m.received(p, now_ns).1.kind }),
{
}

/// Every other packet counts as heard: the timeout starts anew, and its source
/// is the one that is followed.
pub proof fn law_heard_restarts_timeout(m: EngineModel, p: PacketModel, now_ns: u64)
    requires
        p.header.version == 2,
        unpadded(p) is Some,
        p.header.ssrc != m.state.ssrc,
    ensures
        ({
            let (m2, r) = m.received(p, now_ns);
            &&& !(r.kind is Dropped) && !(r.kind is OwnSource)
            &&& m2.state.last_rtp_received == Some(now_ns)
            &&& !m2.state.timeout_fired
            &&& m2.state.remote_ssrc == Some(p.header.ssrc)
        }),
{
}

/// A packet of a new source is taken as if the stream had just begun: nothing
/// of the old one is left.
pub proof fn law_new_source_starts_over(m: EngineModel, p: PacketModel, now_ns: u64)
    requires
        m.source_changed(p.header.ssrc),
    ensures
        m.received(p, now_ns).1 == m.stream_reset().received(p, now_ns).1,
        m.received(p, now_ns).1.reset ==> m.received(p, now_ns).0 == m.stream_reset().received(
            p,
            now_ns,
        ).0,
{
    let a = m.heard(p.header.ssrc, now_ns);
    let b = m.stream_reset().heard(p.header.ssrc, now_ns);
    assert(a.detector =~= b.detector);
    assert(a =~= b);
}

/// The timeout is told of once: not again until a packet is heard, and again
/// after one.
pub proof fn law_timeout_told_once(
    m: EngineModel,
    t1: u64,
    t2: u64,
    p: PacketModel,
    t3: u64,
    t4: u64,
)
    requires
        m.timeout_checked(t1).1,
        p.header.version == 2,
        unpadded(p) is Some,
        p.header.ssrc != m.state.ssrc,
        t3 + m.state.timeout_ms() * 1_000_000 <= t4,
    ensures
        !m.timeout_checked(t1).0.timeout_checked(t2).1,
        m.timeout_checked(t1).0.received(p, t3).0.timeout_checked(t4).1,
{
}

/// The first voice after comfort noise is marked, and only the first.
pub proof fn law_voice_after_noise_marked(m: EngineModel, now_ns: u64, samples: nat)
    ensures
        m.noise_out(now_ns).marker_due(),
        !m.noise_out(now_ns).audio_out(samples).marker_due(),
{
}

/// Comfort noise that follows comfort noise is not marked, that which follows
/// voice is, and no two go out within sixty packets.
pub proof fn law_noise_paced(m: EngineModel, t1: u64, t2: u64, samples: nat)
    ensures
        !m.noise_out(t1).noise_packet().header.marker,
        m.audio_out(samples).noise_packet().header.marker,
        t1 <= t2 ==> m.noise_out(t1).noise_due(t2) == ((t2 - t1) / 1_000_000 >= 60
            * m.state.ptime_ms),
{
    assert(CN_PACING_PTIMES * m.state.ptime_ms == 60 * m.state.ptime_ms);
}

/// What one engine sends, another hears: the bytes of an audio packet are no
/// control packet, and they are received as that packet, as audio if the
/// payload type is taken for no digit and no other type was agreed.
pub proof fn law_sent_audio_received(
    from: EngineModel,
    to: EngineModel,
    data: Seq<u8>,
    marker: bool,
    now_ns: u64,
)
    requires
        from.valid(),
        from.state.ssrc != to.state.ssrc,
        to.state.config.enable_dtmf ==> to.state.config.dtmf_payload_type
            != from.builder.payload_type,
        to.state.config.audio_payload_type matches Some(e) ==> e == from.builder.payload_type,
    ensures
        ({
            let p = from.builder.next_packet(data, marker);
            let b = packet::plain_bytes(p);
            let kind = to.received(p, now_ns).1.kind;
            &&& b.len() >= 12 && !is_control(b) && packet::extension_fits(b)
            &&& !packet::has_extension(b) && packet::plain_packet(b) == Some(p)
            &&& kind is Audio || kind is Duplicate
        }),
{
    packet::law_plain_round_trip(from.builder.next_packet(data, marker));
}

} // verus!
