//! What an engine does with what comes, and what it sends.

use crate::rtp::codec;
use crate::rtp::codec::CodecType;
use crate::rtp::engine;
use crate::rtp::engine::{EngineModel, ReceptionKind};
use crate::rtp::jitter;
use crate::rtp::packet::PacketModel;
use vstd::prelude::*;

verus! {

/// A packet that is not ours to refuse: of version 2, with padding that is there
/// if said to be, and from another source.
pub open spec fn is_heard(m: EngineModel, p: PacketModel) -> bool {
    &&& p.header.version == 2
    &&& p.header.padding && p.payload.len() > 0 ==> 1 <= p.payload.last() <= p.payload.len()
    &&& p.header.ssrc != m.state.ssrc
}

/// Control packets on a shared port have types from 200 to 211 in the second
/// byte.
pub proof fn law_control(d: Seq<u8>)
    ensures
        engine::is_control(d) <==> d.len() >= 2 && 200 <= d[1] <= 211,
{
}

/// Padding is cut off: as many bytes as its last one says.
pub proof fn law_padding_cut(p: PacketModel, body: Seq<u8>, pad: Seq<u8>)
    requires
        p.header.padding,
        p.payload == body + pad,
        pad.len() > 0,
        pad.last() == pad.len(),
    ensures
        engine::unpadded(p) == Some(PacketModel { payload: body, ..p }),
{
    assert(p.payload.last() == pad.last());
    assert(p.payload.subrange(0, p.payload.len() - p.payload.last()) =~= body);
}

/// Without padding nothing is cut, and padding that is said to be there and is
/// not makes no packet.
pub proof fn law_no_padding(p: PacketModel)
    ensures
        !p.header.padding ==> engine::unpadded(p) == Some(p),
        p.header.padding && p.payload.len() > 0 && (p.payload.last() == 0 || p.payload.last()
            > p.payload.len()) ==> engine::unpadded(p) is None,
{
}

/// A packet of another version, or without the padding it says it has, is
/// dropped; one from our own source is known as such.
pub proof fn law_refused(m: EngineModel, p: PacketModel, now_ns: u64)
    ensures
        p.header.version != 2 ==> m.received(p, now_ns).1.kind is Dropped,
        p.header.padding && p.payload.len() > 0 && (p.payload.last() == 0 || p.payload.last()
            > p.payload.len()) ==> m.received(p, now_ns).1.kind is Dropped,
        p.header.version == 2 && !p.header.padding && p.header.ssrc == m.state.ssrc ==> m.received(
            p,
            now_ns,
        ).1.kind is OwnSource,
{
}

/// Packets are sorted by their types: that of digits first, where they are
/// listened to; then, where a type was agreed, all others but 13 are wrong; 13 is
/// comfort noise, and the rest is audio.
pub proof fn law_sorted_by_type(m: EngineModel, p: PacketModel, now_ns: u64)
    requires
        is_heard(m, p),
    ensures
        ({
            let kind = m.received(p, now_ns).1.kind;
            let c = m.state.config;
            let pt = p.header.payload_type;
            let digit = c.enable_dtmf && pt == c.dtmf_payload_type;
            let wrong = c.audio_payload_type is Some && Some(pt) != c.audio_payload_type && pt != 13;
            &&& kind is Digit <==> digit
            &&& kind is WrongType <==> !digit && wrong
            &&& kind is ComfortNoise <==> !digit && !wrong && pt == 13
            &&& kind is Audio || kind is Duplicate <==> !digit && !wrong && pt != 13
        }),
{
}

/// A wrong type is told of as the first only once in a stream.
#[verifier::rlimit(40)]
pub proof fn law_wrong_type_told_once(m: EngineModel, p: PacketModel, q: PacketModel, t: u64, u: u64)
    requires
        is_heard(m, p),
        is_heard(m, q),
        p.header.ssrc == q.header.ssrc,
        m.received(p, t).1.kind is WrongType,
    ensures
        ({
            let (after, _) = m.received(p, t);
            let kind = after.received(q, u).1.kind;
            kind is WrongType ==> kind == ReceptionKind::WrongType { first: false }
        }),
{
}

/// Whether a packet makes the stream start over: one of another source than the
/// one before.
pub proof fn law_start_over(m: EngineModel, p: PacketModel, now_ns: u64)
    requires
        is_heard(m, p),
    ensures
        m.state.remote_ssrc is None ==> !m.received(p, now_ns).1.reset,
        m.state.remote_ssrc is Some ==> (m.received(p, now_ns).1.reset <==> m.state.remote_ssrc
            != Some(p.header.ssrc)),
{
}

/// A stream that starts over keeps nothing: no packets, no number that was
/// played, no digit, and no mapping of timestamps.
pub proof fn law_nothing_kept(m: EngineModel)
    ensures
        ({
            let r = m.stream_reset();
            &&& r.jitter.packets.len() == 0
            &&& r.jitter.last_played is None
            &&& r.jitter.next_sequence is None
            &&& !r.jitter.playout_started
            &&& r.jitter.config == m.jitter.config
            &&& r.detector.queue.len() == 0
            &&& r.detector.current_digit is None
            &&& r.detector.expected_pt == m.detector.expected_pt
            &&& r.state.timestamp_normalizer.remote_base_ts is None
            &&& r.state.timestamp_normalizer.last_remote_ts is None
            &&& r.state.timestamp_normalizer.sample_rate
                == m.state.timestamp_normalizer.sample_rate
            &&& r.state.timestamp_normalizer.ptime_ms == m.state.timestamp_normalizer.ptime_ms
            &&& !r.state.audio_pt_mismatch_warned
            &&& r.builder == m.builder
            &&& r.sender == m.sender
            &&& r.state.ssrc == m.state.ssrc
            &&& r.state.remote_ssrc == m.state.remote_ssrc
        }),
{
}

/// An audio packet that is there already, and is not marked, changes nothing in
/// the jitter buffer.
pub proof fn law_duplicate(m: EngineModel, p: PacketModel, now_ns: u64)
    requires
        m.valid(),
        is_heard(m, p),
        m.state.remote_ssrc == Some(p.header.ssrc),
        !p.header.marker,
        jitter::laws::among(m.jitter.packets, p.header.sequence_number),
    ensures
        ({
            let (after, r) = m.received(p, now_ns);
            r.kind is Audio || r.kind is Duplicate ==> r.kind is Duplicate && after.jitter == m.jitter
        }),
{
    jitter::laws::lemma_among(m.jitter.packets, p.header.sequence_number);
}

/// A marked audio packet begins a new talk: it finds the jitter buffer empty, so
/// it is no duplicate, and is alone in it afterwards at most.
pub proof fn law_marker_empties(m: EngineModel, p: PacketModel, now_ns: u64)
    requires
        m.valid(),
        is_heard(m, p),
        p.header.marker,
    ensures
        ({
            let r = m.received(p, now_ns).1;
            let before = m.jitter_before(true);
            &&& !(r.kind is Duplicate)
            &&& before.packets.len() == 0
            &&& before.last_played is None
            &&& before.next_sequence is None
            &&& !before.initial_buffering_done
            &&& before.current_delay_ms == m.jitter.current_delay_ms
            &&& before.stats.packets_received == m.jitter.stats.packets_received
            &&& before.stats.buffer_size == 0
        }),
{
}

/// Comfort noise that comes sets the level of that which goes out: two bytes, the
/// level and a zero, of type 13, at the sender's place in its stream.
pub proof fn law_noise_answered(m: EngineModel, p: PacketModel, now_ns: u64)
    requires
        is_heard(m, p),
        !p.header.padding,
        p.payload.len() > 0,
        m.received(p, now_ns).1.kind is ComfortNoise,
    ensures
        ({
            let after = m.received(p, now_ns).0;
            let out = after.noise_packet();
            &&& out.payload == seq![p.payload[0], 0u8]
            &&& out.header.payload_type == 13
            &&& out.header.sequence_number == m.builder.sequence
            &&& out.header.timestamp == m.builder.timestamp
            &&& out.header.ssrc == m.builder.ssrc
            &&& after.jitter.packets == m.jitter.packets || m.state.remote_ssrc != Some(
                p.header.ssrc,
            )
        }),
{
}

/// Where none came, the level is 65.
pub proof fn law_usual_noise(m: EngineModel)
    requires
        m.state.last_cn_level is None,
    ensures
        m.noise_packet().payload == seq![65u8, 0u8],
        m.noise_packet().header.payload_type == 13,
{
}

/// The timeout runs from the last packet, in milliseconds; on hold it is another.
pub proof fn law_timeout(m: EngineModel, since: u64, now_ns: u64)
    requires
        m.state.last_rtp_received == Some(since),
        since <= now_ns,
        !m.state.timeout_fired,
    ensures
        !m.state.is_on_hold ==> (m.timeout_checked(now_ns).1 <==> now_ns - since
            >= m.state.config.media_timeout_ms * 1_000_000),
        m.state.is_on_hold ==> (m.timeout_checked(now_ns).1 <==> now_ns - since
            >= m.state.config.hold_media_timeout_ms * 1_000_000),
{
}

/// Before the first packet there is no timeout.
pub proof fn law_no_timeout_before_packets(m: EngineModel, now_ns: u64)
    requires
        m.state.last_rtp_received is None,
    ensures
        !m.timeout_checked(now_ns).1,
        m.timeout_checked(now_ns).0 == m,
{
}

/// Audio that goes out moves the stream on by its samples and one packet, and
/// uses up the reasons for a marker; what came in is not touched.
pub proof fn law_audio_goes_out(m: EngineModel, samples: nat)
    requires
        samples < 0x1_0000_0000,
    ensures
        ({
            let after = m.audio_out(samples);
            &&& after.builder.sequence == m.builder.sequence + 1 || m.builder.sequence == 0xFFFF
                && after.builder.sequence == 0
            &&& after.builder.timestamp == m.builder.timestamp + samples || after.builder.timestamp
                == m.builder.timestamp + samples - 0x1_0000_0000
            &&& !after.state.force_marker
            &&& !after.state.in_cn_silence
            &&& after.jitter == m.jitter
            &&& after.detector == m.detector
            &&& after.sender == m.sender
        }),
{
}

/// The next audio is marked if that was asked for or comfort noise went before
/// it, and not else.
pub proof fn law_marker_due(m: EngineModel)
    ensures
        m.state.force_marker ==> m.marker_due(),
        m.state.in_cn_silence ==> m.marker_due(),
        !m.state.force_marker && !m.state.in_cn_silence ==> !m.marker_due(),
{
}

/// Comfort noise may go out at once where none went out before, and then again
/// after the time of sixty packets.
pub proof fn law_noise_due(m: EngineModel, now_ns: u64)
    ensures
        m.state.last_cn_timestamp is None ==> m.noise_due(now_ns),
        m.state.last_cn_timestamp matches Some(t) ==> t <= now_ns ==> (m.noise_due(now_ns)
            <==> now_ns - t >= 60 * m.state.ptime_ms * 1_000_000),
{
}

/// An audio packet that is taken in goes on from the mapping of timestamps as it
/// was, by its own timestamp.
pub proof fn law_audio_mapped(m: EngineModel, p: PacketModel, now_ns: u64)
    requires
        is_heard(m, p),
        m.state.remote_ssrc is None || m.state.remote_ssrc == Some(p.header.ssrc),
        m.received(p, now_ns).1.kind is Audio || m.received(p, now_ns).1.kind is Duplicate,
    ensures
        m.received(p, now_ns).0.state.timestamp_normalizer == m.state.timestamp_normalizer.after(
            p.header.timestamp,
        ),
        m.received(p, now_ns).0.detector == m.detector,
        m.received(p, now_ns).0.builder == m.builder,
{
}

/// Audio is encoded byte for sample, in one way only, and what it decodes to is
/// near to the samples.
pub proof fn law_audio_encoded(c: CodecType, samples: Seq<i16>, data: Seq<u8>, other: Seq<u8>)
    requires
        engine::encodes(c, samples, data),
        engine::encodes(c, samples, other),
    ensures
        data == other,
        data.len() == samples.len(),
        forall|i: int|
            0 <= i < samples.len() ==> 20 * codec::apart(
                codec::samples_of(c, data)[i],
                #[trigger] samples[i],
            ) <= codec::magnitude(samples[i]) + 161,
{
    assert forall|i: int| 0 <= i < data.len() implies data[i] == other[i] by {
        codec::law_byte_unique(c, samples[i], data[i], other[i]);
    }
    assert(data =~= other);
    assert forall|i: int| 0 <= i < samples.len() implies 20 * codec::apart(
        codec::samples_of(c, data)[i],
        #[trigger] samples[i],
    ) <= codec::magnitude(samples[i]) + 161 by {
        assert(c.is_byte(samples[i], data[i]));
        codec::law_encode_close(c, samples[i], data[i]);
    }
}

} // verus!
