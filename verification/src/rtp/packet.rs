//! RTP packets: their content, their wire form, and a builder that numbers them.

pub mod laws;

use crate::error::RtpSipError;
use crate::random::random_word;
use crate::wire;
use ::rtp::header::{Extension, Header};
use ::rtp::packet::Packet;
use vstd::prelude::*;
use vstd::string::*;
use webrtc_util::marshal::{Marshal, Unmarshal};

verus! {

/// A header extension element.
#[derive(Debug, Clone)]
pub struct RtpExtension {
    /// Element identifier.
    pub id: u8,
    /// Element content.
    pub payload: Vec<u8>,
}

/// An RTP header.
#[derive(Debug, Clone)]
pub struct RtpHeader {
    pub version: u8,
    pub padding: bool,
    pub extension: bool,
    pub marker: bool,
    pub payload_type: u8,
    pub sequence_number: u16,
    pub timestamp: u32,
    pub ssrc: u32,
    pub csrc: Vec<u32>,
    pub extension_profile: u16,
    pub extensions: Vec<RtpExtension>,
    pub extensions_padding: usize,
}

/// An RTP packet.
#[derive(Debug, Clone)]
pub struct RtpPacket {
    pub header: RtpHeader,
    pub payload: Vec<u8>,
}

/// The mathematical content of a header.
#[verifier::ext_equal]
pub struct HeaderModel {
    pub version: u8,
    pub padding: bool,
    pub extension: bool,
    pub marker: bool,
    pub payload_type: u8,
    pub sequence_number: u16,
    pub timestamp: u32,
    pub ssrc: u32,
    pub csrc: Seq<u32>,
    pub extension_profile: u16,
    pub extensions: Seq<(u8, Seq<u8>)>,
    pub extensions_padding: usize,
}

/// The mathematical content of a packet.
#[verifier::ext_equal]
pub struct PacketModel {
    pub header: HeaderModel,
    pub payload: Seq<u8>,
}

impl View for RtpHeader {
    type V = HeaderModel;

    open spec fn view(&self) -> HeaderModel {
        HeaderModel {
            version: self.version,
            padding: self.padding,
            extension: self.extension,
            marker: self.marker,
            payload_type: self.payload_type,
            sequence_number: self.sequence_number,
            timestamp: self.timestamp,
            ssrc: self.ssrc,
            csrc: self.csrc@,
            extension_profile: self.extension_profile,
            extensions: Seq::new(
                self.extensions@.len(),
                |i: int| (self.extensions@[i].id, self.extensions@[i].payload@),
            ),
            extensions_padding: self.extensions_padding,
        }
    }
}

impl View for RtpPacket {
    type V = PacketModel;

    open spec fn view(&self) -> PacketModel {
        PacketModel { header: self.header@, payload: self.payload@ }
    }
}

impl RtpHeader {
    /// A copy with the same content.
    pub fn duplicate(&self) -> (h: RtpHeader)
        ensures
            h@ == self@,
    {
        let mut csrc: Vec<u32> = Vec::new();
        let mut i: usize = 0;
        while i < self.csrc.len()
            invariant
                i <= self.csrc@.len(),
                csrc@ == self.csrc@.subrange(0, i as int),
            decreases self.csrc@.len() - i,
        {
            csrc.push(self.csrc[i]);
            i += 1;
            assert(csrc@ =~= self.csrc@.subrange(0, i as int));
        }
        assert(csrc@ =~= self.csrc@);
        let mut extensions: Vec<RtpExtension> = Vec::new();
        let mut j: usize = 0;
        while j < self.extensions.len()
            invariant
                j <= self.extensions@.len(),
                extensions@.len() == j,
                forall|k: int|
                    0 <= k < j ==> (#[trigger] extensions@[k]).id == self.extensions@[k].id
                        && extensions@[k].payload@ == self.extensions@[k].payload@,
            decreases self.extensions@.len() - j,
        {
            let e = &self.extensions[j];
            extensions.push(
                RtpExtension {
                    id: e.id,
                    payload: vstd::slice::slice_to_vec(e.payload.as_slice()),
                },
            );
            j += 1;
        }
        let h = RtpHeader {
            version: self.version,
            padding: self.padding,
            extension: self.extension,
            marker: self.marker,
            payload_type: self.payload_type,
            sequence_number: self.sequence_number,
            timestamp: self.timestamp,
            ssrc: self.ssrc,
            csrc,
            extension_profile: self.extension_profile,
            extensions,
            extensions_padding: self.extensions_padding,
        };
        assert(h@.extensions =~= self@.extensions);
        h
    }
}

// ---------------------------------------------------------------------------
// Wire form
// ---------------------------------------------------------------------------

/// Where the fixed header with its contributing sources ends.
pub open spec fn sources_end(d: Seq<u8>) -> int {
    12 + 4 * (d[0] as int % 16)
}

/// The extension bit.
pub open spec fn has_extension(d: Seq<u8>) -> bool {
    d.len() > 0 && d[0] as int / 16 % 2 == 1
}

/// From `pos` on, the elements of a one-byte header extension that ends at `end`
/// lie within the packet.
pub open spec fn one_byte_elements_fit(d: Seq<u8>, pos: int, end: int) -> bool
    decreases d.len() - pos,
{
    if pos >= end || pos >= d.len() {
        true
    } else if d[pos] == 0 {
        one_byte_elements_fit(d, pos + 1, end)
    } else if d[pos] as int / 16 == 15 {
        true
    } else {
        let next = pos + 2 + d[pos] as int % 16;
        next <= d.len() && one_byte_elements_fit(d, next, end)
    }
}

/// From `pos` on, the elements of a two-byte header extension that ends at `end`
/// lie within the packet.
pub open spec fn two_byte_elements_fit(d: Seq<u8>, pos: int, end: int) -> bool
    decreases d.len() - pos,
{
    if pos >= end || pos >= d.len() {
        true
    } else if d[pos] == 0 {
        two_byte_elements_fit(d, pos + 1, end)
    } else {
        pos + 1 < d.len() && {
            let next = pos + 2 + d[pos + 1] as int;
            next <= d.len() && two_byte_elements_fit(d, next, end)
        }
    }
}

/// If the packet has a whole header extension, its elements lie within the
/// packet.
pub open spec fn extension_fits(d: Seq<u8>) -> bool {
    let off = sources_end(d);
    if !has_extension(d) || d.len() < off + 4 {
        true
    } else {
        let end = off + 4 + 4 * (wire::u16_at(d, off + 2) as int);
        if d.len() < end {
            true
        } else if wire::u16_at(d, off) == 0xBEDE {
            one_byte_elements_fit(d, off + 4, end)
        } else if wire::u16_at(d, off) == 0x1000 {
            two_byte_elements_fit(d, off + 4, end)
        } else {
            true
        }
    }
}

/// The header fields that stand at fixed places.
pub open spec fn plain_header(d: Seq<u8>) -> HeaderModel {
    HeaderModel {
        version: (d[0] / 64) as u8,
        padding: d[0] as int / 32 % 2 == 1,
        extension: false,
        marker: d[1] >= 128,
        payload_type: (d[1] % 128) as u8,
        sequence_number: wire::u16_at(d, 2),
        timestamp: wire::u32_at(d, 4),
        ssrc: wire::u32_at(d, 8),
        csrc: Seq::new((d[0] % 16) as nat, |i: int| wire::u32_at(d, 12 + 4 * i)),
        extension_profile: 0,
        extensions: Seq::empty(),
        extensions_padding: 0,
    }
}

/// The packet in `d`, which has no header extension: the payload is what
/// follows the sources, without its padding.
pub open spec fn plain_packet(d: Seq<u8>) -> Option<PacketModel> {
    let off = sources_end(d);
    let rest = d.subrange(off, d.len() as int);
    let header = plain_header(d);
    if d.len() < 12 || d.len() < off {
        None
    } else if !header.padding {
        Some(PacketModel { header, payload: rest })
    } else if rest.len() == 0 || rest.last() > rest.len() {
        None
    } else {
        Some(PacketModel { header, payload: rest.subrange(0, rest.len() - rest.last()) })
    }
}

/// A packet that fits the wire form and needs neither extension nor padding.
pub open spec fn is_plain(m: PacketModel) -> bool {
    &&& !m.header.extension
    &&& !m.header.padding
    &&& m.header.version < 4
    &&& m.header.payload_type < 128
    &&& m.header.csrc.len() <= 15
}

/// The bytes of a list of 32-bit numbers.
pub open spec fn words_of(s: Seq<u32>) -> Seq<u8>
    decreases s.len(),
{
    if s.len() == 0 {
        Seq::empty()
    } else {
        words_of(s.drop_last()) + wire::be32(s.last())
    }
}

/// The wire form of a plain packet.
pub open spec fn plain_bytes(m: PacketModel) -> Seq<u8> {
    let h = m.header;
    seq![
        (h.version * 64 + h.csrc.len()) as u8,
        (h.payload_type + if h.marker {
            128int
        } else {
            0int
        }) as u8,
    ] + wire::be16(h.sequence_number) + wire::be32(h.timestamp) + wire::be32(h.ssrc) + words_of(
        h.csrc,
    ) + m.payload
}

/// The packet that bytes parse to, or the text of the error.
pub uninterp spec fn parsed_packet(d: Seq<u8>) -> Result<PacketModel, Seq<char>>;

/// The bytes that a packet serializes to, or the text of the error.
pub uninterp spec fn packet_bytes(m: PacketModel) -> Result<Seq<u8>, Seq<char>>;

/// Calls `rtp::packet::Packet::unmarshal`. The packet, or the text of the
/// error, is a function of the bytes, which `parsed_packet` names; without a
/// header extension it is the one that `plain_packet` reads. An extension whose
/// elements run past the packet makes the call panic, so it is left out.
#[verifier::external_body]
fn unmarshal(d: &[u8]) -> (r: Result<RtpPacket, String>)
    requires
        extension_fits(d@),
    ensures
        match r {
            Ok(p) => parsed_packet(d@) is Ok && parsed_packet(d@)->Ok_0 == p@,
            Err(e) => parsed_packet(d@) is Err && parsed_packet(d@)->Err_0 == e@,
        },
        !has_extension(d@) ==> match r {
            Ok(p) => plain_packet(d@) == Some(p@),
            Err(_) => plain_packet(d@) is None,
        },
{
    let p = Packet::unmarshal(&mut &d[..]).map_err(|e| e.to_string())?;
    let h = p.header;
    let exts = h.extensions.iter().map(|e| RtpExtension { id: e.id, payload: e.payload.to_vec() });
    let extensions = exts.collect();
    let header = RtpHeader {
        version: h.version, padding: h.padding, extension: h.extension, marker: h.marker,
        payload_type: h.payload_type, sequence_number: h.sequence_number, timestamp: h.timestamp,
        ssrc: h.ssrc, csrc: h.csrc, extension_profile: h.extension_profile, extensions,
        extensions_padding: h.extensions_padding,
    };
    Ok(RtpPacket { header, payload: p.payload.to_vec() })
}

/// The bytes of the extension elements, with their element headers.
pub open spec fn extension_size(h: HeaderModel) -> nat
    decreases h.extensions.len(),
{
    if h.extensions.len() == 0 {
        0
    } else {
        let per: nat = if h.extension_profile == 0xBEDE {
            1
        } else if h.extension_profile == 0x1000 {
            2
        } else {
            0
        };
        extension_size(HeaderModel { extensions: h.extensions.drop_last(), ..h })
            + h.extensions.last().1.len() + per
    }
}

/// A packet that can be serialized at all: its size is within the address
/// space, and with a header extension, the elements have at most 65532 bytes
/// and, in the one-byte form, a length that is no multiple of 256.
pub open spec fn serializable(m: PacketModel) -> bool {
    let h = m.header;
    &&& 32 + h.csrc.len() * 4 + extension_size(h) + h.extensions_padding + m.payload.len()
        <= isize::MAX
    &&& h.extension ==> extension_size(h) <= 65532
    &&& h.extension && h.extension_profile == 0xBEDE ==> forall|i: int|
        0 <= i < h.extensions.len() ==> (#[trigger] h.extensions[i]).1.len() % 256 > 0
}

/// Calls `webrtc_util::marshal::Marshal::marshal` on an `rtp::packet::Packet`.
/// The bytes, or the text of the error, are a function of the packet, which
/// `packet_bytes` names; a plain packet has the bytes of `plain_bytes`. Packets
/// on which the call's own arithmetic overflows are left out.
#[verifier::external_body]
fn marshal(p: &RtpPacket) -> (r: Result<Vec<u8>, String>)
    requires
        serializable(p@),
    ensures
        match r {
            Ok(b) => packet_bytes(p@) is Ok && packet_bytes(p@)->Ok_0 == b@,
            Err(e) => packet_bytes(p@) is Err && packet_bytes(p@)->Err_0 == e@,
        },
        is_plain(p@) ==> r is Ok && r->Ok_0@ == plain_bytes(p@),
{
    let h = &p.header;
    let exts = h.extensions.iter().map(|e| Extension { id: e.id, payload: e.payload.clone().into() });
    let extensions = exts.collect();
    let header = Header {
        version: h.version, padding: h.padding, extension: h.extension, marker: h.marker,
        payload_type: h.payload_type, sequence_number: h.sequence_number, timestamp: h.timestamp,
        ssrc: h.ssrc, csrc: h.csrc.clone(), extension_profile: h.extension_profile, extensions,
        extensions_padding: h.extensions_padding,
    };
    let packet = Packet { header, payload: p.payload.clone().into() };
    packet.marshal().map(|b| b.to_vec()).map_err(|e| e.to_string())
}

/// Whether the elements of a header extension lie within the packet.
pub fn rtp_extension_fits(data: &[u8]) -> (r: bool)
    ensures
        r == extension_fits(data@),
{
    if data.len() == 0 || data[0] / 16 % 2 != 1 {
        return true;
    }
    let off: usize = 12 + 4 * (data[0] % 16) as usize;
    if data.len() < off + 4 {
        return true;
    }
    let profile: u16 = wire::read_u16(data, off);
    let end: usize = off + 4 + 4 * (wire::read_u16(data, off + 2) as usize);
    if data.len() < end {
        return true;
    }
    let mut pos: usize = off + 4;
    if profile == 0xBEDE {
        while pos < end
            invariant
                end <= data@.len(),
                pos <= data@.len(),
                extension_fits(data@) == one_byte_elements_fit(data@, pos as int, end as int),
            decreases data@.len() - pos,
        {
            let b: u8 = data[pos];
            if b == 0 {
                pos += 1;
            } else if b / 16 == 15 {
                return true;
            } else {
                let len: usize = 2 + (b % 16) as usize;
                if data.len() - pos < len {
                    return false;
                }
                pos += len;
            }
        }
    } else if profile == 0x1000 {
        while pos < end
            invariant
                end <= data@.len(),
                pos <= data@.len(),
                extension_fits(data@) == two_byte_elements_fit(data@, pos as int, end as int),
            decreases data@.len() - pos,
        {
            let b: u8 = data[pos];
            if b == 0 {
                pos += 1;
            } else {
                if data.len() - pos < 2 {
                    return false;
                }
                let len: usize = 2 + data[pos + 1] as usize;
                if data.len() - pos < len {
                    return false;
                }
                pos += len;
            }
        }
    }
    true
}

/// Parse an RTP packet.
pub fn parse_rtp_packet(data: &[u8]) -> (r: Result<RtpPacket, RtpSipError>)
    requires
        extension_fits(data@),
    ensures
        match r {
            Ok(p) => parsed_packet(data@) == Ok::<PacketModel, Seq<char>>(p@),
            Err(e) => parsed_packet(data@) is Err && e.is_rtp(
                "Failed to parse RTP packet: "@ + parsed_packet(data@)->Err_0,
            ),
        },
        !has_extension(data@) ==> match r {
            Ok(p) => plain_packet(data@) == Some(p@),
            Err(_) => plain_packet(data@) is None,
        },
{
    match unmarshal(data) {
        Ok(p) => Ok(p),
        Err(e) => Err(
            RtpSipError::Rtp(String::from_str("Failed to parse RTP packet: ").concat(e.as_str())),
        ),
    }
}

/// Serialize an RTP packet.
pub fn serialize_rtp_packet(packet: &RtpPacket) -> (r: Result<Vec<u8>, RtpSipError>)
    requires
        serializable(packet@),
    ensures
        match r {
            Ok(b) => packet_bytes(packet@) == Ok::<Seq<u8>, Seq<char>>(b@),
            Err(e) => packet_bytes(packet@) is Err && e.is_rtp(
                "Failed to serialize RTP packet: "@ + packet_bytes(packet@)->Err_0,
            ),
        },
        is_plain(packet@) ==> r is Ok && r->Ok_0@ == plain_bytes(packet@),
{
    match marshal(packet) {
        Ok(b) => Ok(b),
        Err(e) => Err(
            RtpSipError::Rtp(
                String::from_str("Failed to serialize RTP packet: ").concat(e.as_str()),
            ),
        ),
    }
}

/// A plain packet without leftover extension fields parses back from its wire
/// form.
#[verifier::rlimit(40)]
pub proof fn law_plain_round_trip(m: PacketModel)
    requires
        is_plain(m),
        m.header.extension_profile == 0,
        m.header.extensions.len() == 0,
        m.header.extensions_padding == 0,
    ensures
        !has_extension(plain_bytes(m)),
        extension_fits(plain_bytes(m)),
        plain_packet(plain_bytes(m)) == Some(m),
{
    let h = m.header;
    let d = plain_bytes(m);
    let n = h.csrc.len();
    lemma_words_of(h.csrc);
    let fixed = d.subrange(0, 12);
    assert(d.len() == 12 + 4 * n + m.payload.len());
    assert(d[0] == (h.version * 64 + n) as u8);
    assert(d[0] as int / 64 == h.version && d[0] as int % 16 == n && d[0] as int / 16 % 4 == 0);
    assert(d.subrange(2, 4) =~= wire::be16(h.sequence_number));
    wire::lemma_be16_read(d, 2, h.sequence_number);
    assert(d.subrange(4, 8) =~= wire::be32(h.timestamp));
    wire::lemma_be32_read(d, 4, h.timestamp);
    assert(d.subrange(8, 12) =~= wire::be32(h.ssrc));
    wire::lemma_be32_read(d, 8, h.ssrc);
    let header = plain_header(d);
    assert forall|i: int| 0 <= i < n implies #[trigger] header.csrc[i] == h.csrc[i] by {
        let w = words_of(h.csrc);
        assert(d.subrange(12 + 4 * i, 16 + 4 * i) =~= w.subrange(4 * i, 4 * i + 4));
        wire::lemma_be32_read(d, 12 + 4 * i, h.csrc[i]);
    }
    assert(header.csrc =~= h.csrc);
    assert(header.extensions =~= h.extensions);
    assert(header =~= h);
    assert(d.subrange(sources_end(d), d.len() as int) =~= m.payload);
}

/// Number `i` of a list stands in the four bytes from `4 * i` on.
proof fn lemma_words_of(s: Seq<u32>)
    ensures
        words_of(s).len() == 4 * s.len(),
        forall|i: int|
            0 <= i < s.len() ==> words_of(s).subrange(4 * i, 4 * i + 4) == wire::be32(
                #[trigger] s[i],
            ),
    decreases s.len(),
{
    if s.len() > 0 {
        let front = s.drop_last();
        lemma_words_of(front);
        let w = words_of(s);
        assert forall|i: int| 0 <= i < s.len() implies w.subrange(4 * i, 4 * i + 4) == wire::be32(
            #[trigger] s[i],
        ) by {
            if i < s.len() - 1 {
                assert(w.subrange(4 * i, 4 * i + 4) =~= words_of(front).subrange(4 * i, 4 * i + 4));
                assert(front[i] == s[i]);
            } else {
                assert(w.subrange(4 * i, 4 * i + 4) =~= wire::be32(s.last()));
            }
        }
    }
}

// ---------------------------------------------------------------------------
// Builder
// ---------------------------------------------------------------------------

/// Builds the packets of one stream, one after the other.
pub struct RtpPacketBuilder {
    pub payload_type: u8,
    pub ssrc: u32,
    pub sequence: u16,
    pub timestamp: u32,
}

impl RtpPacketBuilder {
    /// The next packet: no padding, extension or sources.
    pub open spec fn next_packet(self, payload: Seq<u8>, marker: bool) -> PacketModel {
        PacketModel {
            header: HeaderModel {
                version: 2,
                padding: false,
                extension: false,
                marker,
                payload_type: self.payload_type,
                sequence_number: self.sequence,
                timestamp: self.timestamp,
                ssrc: self.ssrc,
                csrc: Seq::empty(),
                extension_profile: 0,
                extensions: Seq::empty(),
                extensions_padding: 0,
            },
            payload,
        }
    }

    /// The builder after a packet of `samples` samples: the next sequence
    /// number, and the timestamp that many later, both modulo their range.
    pub open spec fn advanced(self, samples: u32) -> RtpPacketBuilder {
        RtpPacketBuilder {
            sequence: ((self.sequence + 1) % 0x1_0000) as u16,
            timestamp: ((self.timestamp + samples) % 0x1_0000_0000) as u32,
            ..self
        }
    }

    /// A builder that starts at a random sequence number and timestamp.
    pub fn new(payload_type: u8, ssrc: u32) -> (b: RtpPacketBuilder)
        ensures
            b.payload_type == payload_type,
            b.ssrc == ssrc,
    {
        let a: u64 = random_word();
        let b: u64 = random_word();
        RtpPacketBuilder::with_initial(
            payload_type,
            ssrc,
            (a % 0x1_0000) as u16,
            (b % 0x1_0000_0000) as u32,
        )
    }

    /// A builder that starts at a given sequence number and timestamp.
    pub fn with_initial(
        payload_type: u8,
        ssrc: u32,
        initial_sequence: u16,
        initial_timestamp: u32,
    ) -> (b: RtpPacketBuilder)
        ensures
            b.payload_type == payload_type,
            b.ssrc == ssrc,
            b.sequence == initial_sequence,
            b.timestamp == initial_timestamp,
    {
        RtpPacketBuilder {
            payload_type,
            ssrc,
            sequence: initial_sequence,
            timestamp: initial_timestamp,
        }
    }

    /// The next packet, without marker. A packet covers at least one sample.
    pub fn build(&mut self, payload: Vec<u8>, samples: u32) -> (p: RtpPacket)
        requires
            samples > 0,
        ensures
            p@ == old(self).next_packet(payload@, false),
            *final(self) == old(self).advanced(samples),
    {
        self.build_with_marker(payload, samples, false)
    }

    /// The next packet, with the given marker bit.
    pub fn build_with_marker(&mut self, payload: Vec<u8>, samples: u32, marker: bool) -> (p:
        RtpPacket)
        ensures
            p@ == old(self).next_packet(payload@, marker),
            *final(self) == old(self).advanced(samples),
    {
        let header = RtpHeader {
            version: 2,
            padding: false,
            extension: false,
            marker,
            payload_type: self.payload_type,
            sequence_number: self.sequence,
            timestamp: self.timestamp,
            ssrc: self.ssrc,
            csrc: Vec::new(),
            extension_profile: 0,
            extensions: Vec::new(),
            extensions_padding: 0,
        };
        let p = RtpPacket { header, payload };
        self.sequence = self.sequence.wrapping_add(1);
        self.timestamp = self.timestamp.wrapping_add(samples);
        assert(p@ =~= old(self).next_packet(payload@, marker));
        p
    }

    /// The next sequence number.
    pub fn sequence(&self) -> (n: u16)
        ensures
            n == self.sequence,
    {
        self.sequence
    }

    /// Take the next sequence number.
    pub fn next_sequence(&mut self) -> (n: u16)
        ensures
            n == old(self).sequence,
            *final(self) == (RtpPacketBuilder {
                sequence: ((old(self).sequence + 1) % 0x1_0000) as u16,
                ..*old(self)
            }),
    {
        let seq: u16 = self.sequence;
        self.sequence = self.sequence.wrapping_add(1);
        seq
    }

    /// Continue at another sequence number.
    pub fn set_sequence(&mut self, seq: u16)
        ensures
            *final(self) == (RtpPacketBuilder { sequence: seq, ..*old(self) }),
    {
        self.sequence = seq;
    }

    /// The next timestamp.
    pub fn timestamp(&self) -> (t: u32)
        ensures
            t == self.timestamp,
    {
        self.timestamp
    }

    /// The source identifier.
    pub fn ssrc(&self) -> (n: u32)
        ensures
            n == self.ssrc,
    {
        self.ssrc
    }
}

} // verus!
