//! RTP media.

pub mod codec;
pub mod crypto;
pub mod dtmf;
pub mod engine;
pub mod goertzel;
pub mod jitter;
pub mod media_tap;
pub mod packet;
pub mod plc;
pub mod resampler;
pub mod rtcp;
pub mod sdes;
pub mod srtp;
pub mod vad;

pub use crate::rtp::codec::{CodecType, G711Codec};
pub use crate::rtp::dtmf::{
    DetectedDtmf, DtmfDetector, DtmfEvent, DtmfPacket, DtmfPayload, DtmfSender, TELEPHONE_EVENT_PT,
    TELEPHONE_EVENT_RATE,
};
pub use crate::rtp::engine::{RtpEngine, RtpEngineConfig};
pub use crate::rtp::jitter::{JitterBuffer, JitterConfig, JitterStats};
pub use crate::rtp::packet::{
    parse_rtp_packet, serialize_rtp_packet, RtpPacket, RtpPacketBuilder,
};
pub use crate::rtp::rtcp::VoipMetrics;
pub use crate::rtp::srtp::{CryptoAttribute, SrtpCipherSuite, SrtpContext};
