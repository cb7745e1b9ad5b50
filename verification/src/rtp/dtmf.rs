//! DTMF as telephone events over RTP: the payload, a sender and a detector.

pub mod laws;

use crate::error::RtpSipError;
use crate::text;
use crate::wire;
use std::collections::VecDeque;
use vstd::prelude::*;
use vstd::string::*;

verus! {

/// Default payload type of telephone events.
pub const TELEPHONE_EVENT_PT: u8 = 101;

/// Default volume.
pub const DEFAULT_VOLUME: u8 = 10;

/// Clock rate of telephone events.
pub const TELEPHONE_EVENT_RATE: u32 = 8000;

/// Packets with one timestamp after which a stream counts as stuck.
pub const DTMF_SANITY_LIMIT: u32 = 1500;

/// Longest digit: thirty seconds.
pub const DTMF_MAX_DURATION: u32 = 240_000;

/// Default time after which a digit without an end is completed.
pub const DTMF_END_TIMEOUT_MS: u32 = 5000;

/// Shortest duration reported.
pub const DTMF_MIN_DURATION_MS: u32 = 50;

/// Timestamps after the end of a digit in which no other begins: 80 ms.
pub const DTMF_INTERDIGIT_GAP: u32 = 640;

/// The sixteen events.
#[derive(Debug, Clone, Copy, PartialEq, Eq, Structural)]
pub enum DtmfEvent {
    Digit0,
    Digit1,
    Digit2,
    Digit3,
    Digit4,
    Digit5,
    Digit6,
    Digit7,
    Digit8,
    Digit9,
    Star,
    Pound,
    A,
    B,
    C,
    D,
}

impl DtmfEvent {
    /// The event code.
    pub open spec fn number(self) -> u8 {
        match self {
            DtmfEvent::Digit0 => 0,
            DtmfEvent::Digit1 => 1,
            DtmfEvent::Digit2 => 2,
            DtmfEvent::Digit3 => 3,
            DtmfEvent::Digit4 => 4,
            DtmfEvent::Digit5 => 5,
            DtmfEvent::Digit6 => 6,
            DtmfEvent::Digit7 => 7,
            DtmfEvent::Digit8 => 8,
            DtmfEvent::Digit9 => 9,
            DtmfEvent::Star => 10,
            DtmfEvent::Pound => 11,
            DtmfEvent::A => 12,
            DtmfEvent::B => 13,
            DtmfEvent::C => 14,
            DtmfEvent::D => 15,
        }
    }

    /// The key's character.
    pub open spec fn character(self) -> char {
        match self {
            DtmfEvent::Digit0 => '0',
            DtmfEvent::Digit1 => '1',
            DtmfEvent::Digit2 => '2',
            DtmfEvent::Digit3 => '3',
            DtmfEvent::Digit4 => '4',
            DtmfEvent::Digit5 => '5',
            DtmfEvent::Digit6 => '6',
            DtmfEvent::Digit7 => '7',
            DtmfEvent::Digit8 => '8',
            DtmfEvent::Digit9 => '9',
            DtmfEvent::Star => '*',
            DtmfEvent::Pound => '#',
            DtmfEvent::A => 'A',
            DtmfEvent::B => 'B',
            DtmfEvent::C => 'C',
            DtmfEvent::D => 'D',
        }
    }

    /// The event of a key; letters count in either case.
    pub fn from_char(c: char) -> (r: Option<DtmfEvent>)
        ensures
            match r {
                Some(e) => e.character() == text::ascii_upper(c),
                None => forall|e: DtmfEvent| e.character() != text::ascii_upper(c),
            },
    {
        if c == '0' {
            Some(DtmfEvent::Digit0)
        } else if c == '1' {
            Some(DtmfEvent::Digit1)
        } else if c == '2' {
            Some(DtmfEvent::Digit2)
        } else if c == '3' {
            Some(DtmfEvent::Digit3)
        } else if c == '4' {
            Some(DtmfEvent::Digit4)
        } else if c == '5' {
            Some(DtmfEvent::Digit5)
        } else if c == '6' {
            Some(DtmfEvent::Digit6)
        } else if c == '7' {
            Some(DtmfEvent::Digit7)
        } else if c == '8' {
            Some(DtmfEvent::Digit8)
        } else if c == '9' {
            Some(DtmfEvent::Digit9)
        } else if c == '*' {
            Some(DtmfEvent::Star)
        } else if c == '#' {
            Some(DtmfEvent::Pound)
        } else if c == 'A' || c == 'a' {
            Some(DtmfEvent::A)
        } else if c == 'B' || c == 'b' {
            Some(DtmfEvent::B)
        } else if c == 'C' || c == 'c' {
            Some(DtmfEvent::C)
        } else if c == 'D' || c == 'd' {
            Some(DtmfEvent::D)
        } else {
            None
        }
    }

    /// The event with a given code.
    pub open spec fn numbered(code: u8) -> Option<DtmfEvent> {
        match code {
            0 => Some(DtmfEvent::Digit0),
            1 => Some(DtmfEvent::Digit1),
            2 => Some(DtmfEvent::Digit2),
            3 => Some(DtmfEvent::Digit3),
            4 => Some(DtmfEvent::Digit4),
            5 => Some(DtmfEvent::Digit5),
            6 => Some(DtmfEvent::Digit6),
            7 => Some(DtmfEvent::Digit7),
            8 => Some(DtmfEvent::Digit8),
            9 => Some(DtmfEvent::Digit9),
            10 => Some(DtmfEvent::Star),
            11 => Some(DtmfEvent::Pound),
            12 => Some(DtmfEvent::A),
            13 => Some(DtmfEvent::B),
            14 => Some(DtmfEvent::C),
            15 => Some(DtmfEvent::D),
            _ => None,
        }
    }

    /// The event with a given code.
    pub fn from_code(code: u8) -> (r: Option<DtmfEvent>)
        ensures
            r == DtmfEvent::numbered(code),
    {
        match code {
            0 => Some(DtmfEvent::Digit0),
            1 => Some(DtmfEvent::Digit1),
            2 => Some(DtmfEvent::Digit2),
            3 => Some(DtmfEvent::Digit3),
            4 => Some(DtmfEvent::Digit4),
            5 => Some(DtmfEvent::Digit5),
            6 => Some(DtmfEvent::Digit6),
            7 => Some(DtmfEvent::Digit7),
            8 => Some(DtmfEvent::Digit8),
            9 => Some(DtmfEvent::Digit9),
            10 => Some(DtmfEvent::Star),
            11 => Some(DtmfEvent::Pound),
            12 => Some(DtmfEvent::A),
            13 => Some(DtmfEvent::B),
            14 => Some(DtmfEvent::C),
            15 => Some(DtmfEvent::D),
            _ => None,
        }
    }

    /// The key's character.
    pub fn to_char(self) -> (c: char)
        ensures
            c == self.character(),
    {
        match self {
            DtmfEvent::Digit0 => '0',
            DtmfEvent::Digit1 => '1',
            DtmfEvent::Digit2 => '2',
            DtmfEvent::Digit3 => '3',
            DtmfEvent::Digit4 => '4',
            DtmfEvent::Digit5 => '5',
            DtmfEvent::Digit6 => '6',
            DtmfEvent::Digit7 => '7',
            DtmfEvent::Digit8 => '8',
            DtmfEvent::Digit9 => '9',
            DtmfEvent::Star => '*',
            DtmfEvent::Pound => '#',
            DtmfEvent::A => 'A',
            DtmfEvent::B => 'B',
            DtmfEvent::C => 'C',
            DtmfEvent::D => 'D',
        }
    }

    /// The event code.
    pub fn code(self) -> (n: u8)
        ensures
            n == self.number(),
            n <= 15,
    {
        match self {
            DtmfEvent::Digit0 => 0,
            DtmfEvent::Digit1 => 1,
            DtmfEvent::Digit2 => 2,
            DtmfEvent::Digit3 => 3,
            DtmfEvent::Digit4 => 4,
            DtmfEvent::Digit5 => 5,
            DtmfEvent::Digit6 => 6,
            DtmfEvent::Digit7 => 7,
            DtmfEvent::Digit8 => 8,
            DtmfEvent::Digit9 => 9,
            DtmfEvent::Star => 10,
            DtmfEvent::Pound => 11,
            DtmfEvent::A => 12,
            DtmfEvent::B => 13,
            DtmfEvent::C => 14,
            DtmfEvent::D => 15,
        }
    }
}

/// Codes and events name each other.
pub proof fn law_event_codes(e: DtmfEvent, code: u8)
    ensures
        DtmfEvent::numbered(e.number()) == Some(e),
        DtmfEvent::numbered(code) is Some <==> code <= 15,
        DtmfEvent::numbered(code) matches Some(f) ==> f.number() == code,
{
}

/// The smaller of a number and the range of a duration.
pub open spec fn duration_cap(n: int) -> u16 {
    if n > 0xFFFF {
        0xFFFF
    } else {
        n as u16
    }
}

/// A character that stands for an event.
pub open spec fn names_event(c: char) -> bool {
    exists|e: DtmfEvent| #[trigger] e.character() == text::ascii_upper(c)
}

/// A telephone event payload.
#[derive(Debug, Clone, Copy, PartialEq, Eq, Structural)]
pub struct DtmfPayload {
    /// Event code.
    pub event: u8,
    /// Whether the event ends.
    pub is_end: bool,
    /// Volume, 0 to 63.
    pub volume: u8,
    /// Duration in timestamp units.
    pub duration: u16,
}

impl DtmfPayload {
    /// A payload for an event, at the default volume.
    pub open spec fn of(event: DtmfEvent, is_end: bool, duration: u16) -> DtmfPayload {
        DtmfPayload { event: event.number(), is_end, volume: DEFAULT_VOLUME, duration }
    }

    /// The four bytes of the payload.
    pub open spec fn bytes(self) -> Seq<u8> {
        seq![
            self.event,
            ((if self.is_end {
                128int
            } else {
                0int
            }) + self.volume % 64) as u8,
        ] + wire::be16(self.duration)
    }

    /// Where the payload starts in a packet: behind four zero bytes, if they
    /// stand before another whole payload.
    pub open spec fn offset(d: Seq<u8>) -> int {
        if d.len() >= 8 && d[0] == 0 && d[1] == 0 && d[2] == 0 && d[3] == 0 && d[4] <= 15 {
            4
        } else {
            0
        }
    }

    /// What a packet's payload says; codes above 15 are no digits.
    pub open spec fn parsed(d: Seq<u8>) -> Option<DtmfPayload> {
        let o = DtmfPayload::offset(d);
        if d.len() < 4 || d[o] > 15 {
            None
        } else {
            Some(
                DtmfPayload {
                    event: d[o],
                    is_end: d[o + 1] >= 128,
                    volume: (d[o + 1] % 64) as u8,
                    duration: wire::u16_at(d, o + 2),
                },
            )
        }
    }

    /// A payload for an event, at the default volume.
    pub fn new(event: DtmfEvent, is_end: bool, duration: u16) -> (p: DtmfPayload)
        ensures
            p == DtmfPayload::of(event, is_end, duration),
    {
        DtmfPayload { event: event.code(), is_end, volume: DEFAULT_VOLUME, duration }
    }

    /// Parse a payload.
    pub fn parse(packet: &[u8]) -> (r: Option<DtmfPayload>)
        ensures
            r == DtmfPayload::parsed(packet@),
    {
        if packet.len() < 4 {
            return None;
        }
        let o: usize = if packet.len() >= 8 && packet[0] == 0 && packet[1] == 0 && packet[2] == 0
            && packet[3] == 0 && packet[4] <= 15 {
            4
        } else {
            0
        };
        let event: u8 = packet[o];
        if event > 15 {
            return None;
        }
        Some(
            DtmfPayload {
                event,
                is_end: packet[o + 1] >= 128,
                volume: packet[o + 1] % 64,
                duration: wire::read_u16(packet, o + 2),
            },
        )
    }

    /// The four bytes of the payload.
    pub fn serialize(&self) -> (b: [u8; 4])
        requires
            self.event <= 15,
        ensures
            b@ == self.bytes(),
    {
        let flags: u8 = if self.is_end {
            128 + self.volume % 64
        } else {
            self.volume % 64
        };
        let d = wire::bytes_u16(self.duration);
        let b: [u8; 4] = [self.event, flags, d[0], d[1]];
        assert(b@ =~= self.bytes());
        b
    }

    /// Milliseconds as timestamp units, up to the range of a duration.
    pub fn ms_to_timestamp(ms: u32) -> (t: u16)
        ensures
            t == duration_cap(ms * 8),
    {
        if ms > 8191 {
            0xFFFF
        } else {
            (ms * 8) as u16
        }
    }

    /// Timestamp units as milliseconds.
    pub fn timestamp_to_ms(ts: u16) -> (ms: u32)
        ensures
            ms == ts / 8,
    {
        ts as u32 / 8
    }

    /// The key's character.
    pub fn to_char(&self) -> (r: Option<char>)
        ensures
            r == match DtmfEvent::numbered(self.event) {
                Some(e) => Some(e.character()),
                None => None,
            },
    {
        match DtmfEvent::from_code(self.event) {
            Some(e) => Some(e.to_char()),
            None => None,
        }
    }
}

/// A payload parses back from its bytes.
pub proof fn law_payload_round_trip(p: DtmfPayload)
    requires
        p.event <= 15,
        p.volume < 64,
    ensures
        DtmfPayload::parsed(p.bytes()) == Some(p),
{
    let b = p.bytes();
    assert(b.len() == 4);
    assert(b.subrange(2, 4) =~= wire::be16(p.duration));
    wire::lemma_be16_read(b, 2, p.duration);
}

/// Workarounds for devices that depart from the standard.
#[derive(Debug, Clone, Copy, PartialEq, Eq, Structural)]
pub struct RtpBugFlags {
    /// Timestamps go up with every packet of a digit, and no marker is set.
    pub sonus_dtmf_timestamp: bool,
    /// The marker is never set.
    pub never_send_marker: bool,
}

impl Default for RtpBugFlags {
    fn default() -> (f: RtpBugFlags)
        ensures
            f == (RtpBugFlags { sonus_dtmf_timestamp: false, never_send_marker: false }),
    {
        RtpBugFlags { sonus_dtmf_timestamp: false, never_send_marker: false }
    }
}

impl RtpBugFlags {
    /// The workarounds that a lower-case device name calls for.
    pub open spec fn for_name(s: Seq<char>) -> RtpBugFlags {
        let sonus = text::contains_text(s, "sonus"@);
        let cisco = text::contains_text(s, "cisco"@);
        RtpBugFlags { sonus_dtmf_timestamp: sonus, never_send_marker: sonus || cisco }
    }

    /// The workarounds that a lower-case device name calls for.
    pub fn from_lowercase_name(name: &str) -> (f: RtpBugFlags)
        ensures
            f == RtpBugFlags::for_name(name@),
    {
        let sonus: bool = text::has_text(name, "sonus");
        let cisco: bool = text::has_text(name, "cisco");
        RtpBugFlags { sonus_dtmf_timestamp: sonus, never_send_marker: sonus || cisco }
    }

    /// The workarounds that a User-Agent header calls for, in any case.
    pub fn detect_from_user_agent(user_agent: &str) -> (f: RtpBugFlags)
        ensures
            f == RtpBugFlags::for_name(text::lowercase(user_agent@)),
            text::all_ascii(user_agent@) ==> f == RtpBugFlags::for_name(
                Seq::new(user_agent@.len(), |i: int| text::ascii_lower(user_agent@[i])),
            ),
    {
        let lower = text::to_lower(user_agent);
        RtpBugFlags::from_lowercase_name(lower.as_str())
    }

    /// Whether any workaround is on.
    pub fn has_workarounds(&self) -> (r: bool)
        ensures
            r == (self.sonus_dtmf_timestamp || self.never_send_marker),
    {
        self.sonus_dtmf_timestamp || self.never_send_marker
    }

    /// Turn on what another set has on.
    pub fn merge(&mut self, other: &RtpBugFlags)
        ensures
            *final(self) == (RtpBugFlags {
                sonus_dtmf_timestamp: old(self).sonus_dtmf_timestamp || other.sonus_dtmf_timestamp,
                never_send_marker: old(self).never_send_marker || other.never_send_marker,
            }),
    {
        self.sonus_dtmf_timestamp = self.sonus_dtmf_timestamp || other.sonus_dtmf_timestamp;
        self.never_send_marker = self.never_send_marker || other.never_send_marker;
    }
}

// ---------------------------------------------------------------------------
// Packets
// ---------------------------------------------------------------------------

/// A telephone event packet.
#[derive(Debug, Clone, Copy)]
pub struct DtmfPacket {
    pub payload_type: u8,
    pub sequence: u16,
    pub timestamp: u32,
    pub ssrc: u32,
    pub marker: bool,
    pub payload: [u8; 4],
}

/// The mathematical content of a telephone event packet.
#[verifier::ext_equal]
pub struct DtmfPacketModel {
    pub payload_type: u8,
    pub sequence: u16,
    pub timestamp: u32,
    pub ssrc: u32,
    pub marker: bool,
    pub payload: Seq<u8>,
}

impl View for DtmfPacket {
    type V = DtmfPacketModel;

    open spec fn view(&self) -> DtmfPacketModel {
        DtmfPacketModel {
            payload_type: self.payload_type,
            sequence: self.sequence,
            timestamp: self.timestamp,
            ssrc: self.ssrc,
            marker: self.marker,
            payload: self.payload@,
        }
    }
}

impl DtmfPacketModel {
    /// The RTP packet: version 2, no padding, extension or sources.
    pub open spec fn wire_bytes(self) -> Seq<u8> {
        seq![
            0x80u8,
            ((if self.marker {
                128int
            } else {
                0int
            }) + self.payload_type % 128) as u8,
        ] + wire::be16(self.sequence) + wire::be32(self.timestamp) + wire::be32(self.ssrc)
            + self.payload
    }
}

impl DtmfPacket {
    /// The RTP packet: version 2, no padding, extension or sources.
    pub fn to_rtp_bytes(&self) -> (b: Vec<u8>)
        ensures
            b@ == self@.wire_bytes(),
    {
        let mut b: Vec<u8> = Vec::new();
        b.push(0x80);
        b.push(
            if self.marker {
                128 + self.payload_type % 128
            } else {
                self.payload_type % 128
            },
        );
        let ghost head = b@;
        wire::push_u16(&mut b, self.sequence);
        wire::push_u32(&mut b, self.timestamp);
        wire::push_u32(&mut b, self.ssrc);
        wire::push_bytes(&mut b, &self.payload);
        assert(head =~= seq![
            0x80u8,
            ((if self.marker {
                128int
            } else {
                0int
            }) + self.payload_type % 128) as u8,
        ]);
        b
    }
}

// ---------------------------------------------------------------------------
// Sender
// ---------------------------------------------------------------------------

/// The packets of a list.
pub open spec fn packets_of(v: Seq<DtmfPacket>) -> Seq<DtmfPacketModel> {
    Seq::new(v.len(), |i: int| v[i]@)
}

/// Sends digits as telephone events. Sequence numbers are shared with the audio
/// stream; the timestamp is that of the audio when the digit starts.
pub struct DtmfSender {
    pub payload_type: u8,
    pub ssrc: u32,
    /// Timestamp of the digit.
    pub digit_timestamp: u32,
    /// The digit being sent.
    pub out_digit: Option<DtmfEvent>,
    /// Duration sent so far.
    pub out_digit_sofar: u32,
    /// Duration asked for.
    pub out_digit_dur: u32,
    pub rtp_bugs: RtpBugFlags,
}

impl DtmfSender {
    /// An idle sender with no workarounds.
    pub open spec fn idle(ssrc: u32) -> DtmfSender {
        DtmfSender {
            payload_type: TELEPHONE_EVENT_PT,
            ssrc,
            digit_timestamp: 0,
            out_digit: None,
            out_digit_sofar: 0,
            out_digit_dur: 0,
            rtp_bugs: RtpBugFlags { sonus_dtmf_timestamp: false, never_send_marker: false },
        }
    }

    /// Create a sender.
    pub fn new(ssrc: u32) -> (s: DtmfSender)
        ensures
            s == DtmfSender::idle(ssrc),
    {
        DtmfSender {
            payload_type: TELEPHONE_EVENT_PT,
            ssrc,
            digit_timestamp: 0,
            out_digit: None,
            out_digit_sofar: 0,
            out_digit_dur: 0,
            rtp_bugs: RtpBugFlags { sonus_dtmf_timestamp: false, never_send_marker: false },
        }
    }

    /// Create a sender with a payload type.
    pub fn with_payload_type(ssrc: u32, payload_type: u8) -> (s: DtmfSender)
        ensures
            s == (DtmfSender { payload_type, ..DtmfSender::idle(ssrc) }),
    {
        let mut s = DtmfSender::new(ssrc);
        s.payload_type = payload_type;
        s
    }

    /// Create a sender with workarounds.
    pub fn with_rtp_bugs(ssrc: u32, rtp_bugs: RtpBugFlags) -> (s: DtmfSender)
        ensures
            s == (DtmfSender { rtp_bugs, ..DtmfSender::idle(ssrc) }),
    {
        let mut s = DtmfSender::new(ssrc);
        s.rtp_bugs = rtp_bugs;
        s
    }

    /// Set the workarounds.
    pub fn set_rtp_bugs(&mut self, rtp_bugs: RtpBugFlags)
        ensures
            *final(self) == (DtmfSender { rtp_bugs, ..*old(self) }),
    {
        self.rtp_bugs = rtp_bugs;
    }

    /// The workarounds.
    pub fn rtp_bugs(&self) -> (f: RtpBugFlags)
        ensures
            f == self.rtp_bugs,
    {
        self.rtp_bugs
    }

    /// Turn on both workarounds.
    pub fn enable_sonus_mode(&mut self)
        ensures
            *final(self) == (DtmfSender {
                rtp_bugs: RtpBugFlags { sonus_dtmf_timestamp: true, never_send_marker: true },
                ..*old(self)
            }),
    {
        self.rtp_bugs = RtpBugFlags { sonus_dtmf_timestamp: true, never_send_marker: true };
    }

    /// The payload type.
    pub fn payload_type(&self) -> (pt: u8)
        ensures
            pt == self.payload_type,
    {
        self.payload_type
    }

    /// The packet that carries a payload: the marker only where the device
    /// stands it.
    pub open spec fn packet(self, p: DtmfPayload, marker: bool, seq: u16) -> DtmfPacketModel {
        DtmfPacketModel {
            payload_type: self.payload_type,
            sequence: seq,
            timestamp: self.digit_timestamp,
            ssrc: self.ssrc,
            marker: marker && !self.rtp_bugs.never_send_marker
                && !self.rtp_bugs.sonus_dtmf_timestamp,
            payload: p.bytes(),
        }
    }

    /// The sender after a packet: the timestamp moves on by 160 for a device
    /// that wants it so.
    pub open spec fn advanced(self) -> DtmfSender {
        if self.rtp_bugs.sonus_dtmf_timestamp {
            DtmfSender { digit_timestamp: self.digit_timestamp.wrapping_add(160), ..self }
        } else {
            self
        }
    }

    /// The packets that end the digit: three, which share one sequence number
    /// unless the device wants each to be new.
    pub open spec fn end_packets(self, seq: u16) -> Seq<DtmfPacketModel> {
        match self.out_digit {
            None => Seq::empty(),
            Some(e) => {
                let p = DtmfPayload::of(e, true, duration_cap(self.out_digit_sofar as int));
                if self.rtp_bugs.sonus_dtmf_timestamp {
                    seq![
                        self.packet(p, false, seq),
                        self.advanced().packet(p, false, seq.wrapping_add(1)),
                        self.advanced().advanced().packet(
                            p,
                            false,
                            seq.wrapping_add(1).wrapping_add(1),
                        ),
                    ]
                } else {
                    let q = self.packet(p, false, seq);
                    seq![q, q, q]
                }
            },
        }
    }

    /// The sequence number after the end packets.
    pub open spec fn end_seq(self, seq: u16) -> u16 {
        if self.out_digit is None {
            seq
        } else if self.rtp_bugs.sonus_dtmf_timestamp {
            seq.wrapping_add(1).wrapping_add(1).wrapping_add(1)
        } else {
            seq.wrapping_add(1)
        }
    }

    /// The sender after the end of the digit.
    pub open spec fn ended(self) -> DtmfSender {
        if self.out_digit is None {
            self
        } else if self.rtp_bugs.sonus_dtmf_timestamp {
            DtmfSender { out_digit: None, ..self.advanced().advanced().advanced() }
        } else {
            DtmfSender {
                out_digit: None,
                digit_timestamp: self.digit_timestamp.wrapping_add(self.out_digit_dur),
                ..self
            }
        }
    }

    /// The duration that the first packet carries: one interval, not zero.
    pub open spec fn first_duration(interval_ms: u32) -> u16 {
        duration_cap(
            (if interval_ms == 0 {
                1
            } else {
                interval_ms
            }) * 8,
        )
    }

    /// The duration of a digit in timestamp units.
    pub open spec fn digit_units(duration_ms: u32) -> u32 {
        if duration_ms * 8 > u32::MAX {
            u32::MAX
        } else {
            (duration_ms * 8) as u32
        }
    }

    /// The sender after a digit was started.
    pub open spec fn started(
        self,
        event: DtmfEvent,
        duration_ms: u32,
        audio_timestamp: u32,
        interval_ms: u32,
    ) -> DtmfSender {
        DtmfSender {
            digit_timestamp: audio_timestamp,
            out_digit: Some(event),
            out_digit_dur: DtmfSender::digit_units(duration_ms),
            out_digit_sofar: DtmfSender::first_duration(interval_ms) as u32,
            ..self
        }.advanced()
    }

    /// What goes out when a digit starts: the end of the digit before it, if
    /// one is in progress, and the first packet.
    pub open spec fn start_packets(
        self,
        event: DtmfEvent,
        audio_timestamp: u32,
        interval_ms: u32,
        seq: u16,
    ) -> Seq<DtmfPacketModel> {
        self.end_packets(seq).push(
            DtmfSender { digit_timestamp: audio_timestamp, ..self }.packet(
                DtmfPayload::of(event, false, DtmfSender::first_duration(interval_ms)),
                true,
                self.end_seq(seq),
            ),
        )
    }

    /// The duration after one more interval.
    pub open spec fn next_duration(self, interval_ms: u32) -> int {
        self.out_digit_sofar + duration_cap(interval_ms * 8)
    }

    /// Whether the digit still goes on.
    pub open spec fn in_progress(self) -> bool {
        self.out_digit is Some && self.out_digit_sofar < self.out_digit_dur
    }

    /// The packet of one more interval, if the digit lasts that long.
    pub open spec fn continue_packet(self, interval_ms: u32, seq: u16) -> Option<DtmfPacketModel> {
        if self.in_progress() && self.next_duration(interval_ms) < self.out_digit_dur {
            Some(
                self.packet(
                    DtmfPayload::of(
                        self.out_digit->Some_0,
                        false,
                        duration_cap(self.next_duration(interval_ms)),
                    ),
                    false,
                    seq,
                ),
            )
        } else {
            None
        }
    }

    /// The sender after one more interval.
    pub open spec fn continued(self, interval_ms: u32) -> DtmfSender {
        if !self.in_progress() {
            self
        } else {
            let s = DtmfSender {
                out_digit_sofar: self.next_duration(interval_ms) as u32,
                ..self
            };
            if self.next_duration(interval_ms) < self.out_digit_dur {
                s.advanced()
            } else {
                s
            }
        }
    }

    /// The sender after a number of intervals.
    pub open spec fn after(self, n: nat, interval_ms: u32) -> DtmfSender
        decreases n,
    {
        if n == 0 {
            self
        } else {
            self.after((n - 1) as nat, interval_ms).continued(interval_ms)
        }
    }

    /// The packets of a number of intervals.
    pub open spec fn packets_after(
        self,
        n: nat,
        interval_ms: u32,
        seq: u16,
    ) -> Seq<DtmfPacketModel>
        decreases n,
    {
        if n == 0 {
            Seq::empty()
        } else {
            let m = (n - 1) as nat;
            match self.after(m, interval_ms).continue_packet(
                interval_ms,
                self.seq_after(m, interval_ms, seq),
            ) {
                Some(p) => self.packets_after(m, interval_ms, seq).push(p),
                None => self.packets_after(m, interval_ms, seq),
            }
        }
    }

    /// The sequence number after a number of intervals.
    pub open spec fn seq_after(self, n: nat, interval_ms: u32, seq: u16) -> u16
        decreases n,
    {
        if n == 0 {
            seq
        } else {
            let m = (n - 1) as nat;
            let q = self.seq_after(m, interval_ms, seq);
            if self.after(m, interval_ms).continue_packet(interval_ms, q) is Some {
                q.wrapping_add(1)
            } else {
                q
            }
        }
    }

    /// How many intervals a digit is given.
    pub open spec fn intervals(duration_ms: u32, interval_ms: u32) -> nat
        recommends
            interval_ms > 0,
    {
        let n = (duration_ms + interval_ms - 1) / (interval_ms as int);
        if n < 1 {
            1
        } else {
            n as nat
        }
    }

    /// The duration that a digit is told to have at its end: whole intervals,
    /// as many as it lasts or, where intervals are too long for one packet, as
    /// many as are sent.
    pub open spec fn units_sent(duration_ms: u32, interval_ms: u32) -> int {
        let step = duration_cap(interval_ms * 8) as int;
        let whole = (DtmfSender::digit_units(duration_ms) + step - 1) / step;
        let most = DtmfSender::intervals(duration_ms, interval_ms) + 1;
        if whole < most {
            whole * step
        } else {
            most * step
        }
    }

    /// A digit whose intervals can be counted.
    pub open spec fn digit_fits(duration_ms: u32, interval_ms: u32) -> bool {
        &&& interval_ms > 0
        &&& duration_ms + interval_ms - 1 <= u32::MAX
        &&& DtmfSender::units_sent(duration_ms, interval_ms) <= u32::MAX
    }

    /// Whether the intervals of a digit can be counted.
    pub fn can_count(duration_ms: u32, interval_ms: u32) -> (r: bool)
        ensures
            r == DtmfSender::digit_fits(duration_ms, interval_ms),
    {
        if interval_ms == 0 || duration_ms > u32::MAX - (interval_ms - 1) {
            return false;
        }
        let step: u64 = DtmfPayload::ms_to_timestamp(interval_ms) as u64;
        let units: u64 = if duration_ms as u64 * 8 > u32::MAX as u64 {
            u32::MAX as u64
        } else {
            duration_ms as u64 * 8
        };
        let whole: u64 = (units + step - 1) / step;
        let wanted: u64 = (duration_ms as u64 + (interval_ms - 1) as u64) / interval_ms as u64;
        let most: u64 = if wanted < 1 {
            2
        } else {
            wanted + 1
        };
        let n: u64 = if whole < most {
            whole
        } else {
            most
        };
        proof {
            assert(0 <= n * step <= 0x1_0000_0000 * 0xFFFF) by (nonlinear_arith)
                requires
                    n <= 0x1_0000_0000,
                    step <= 0xFFFF,
            ;
        }
        n * step <= u32::MAX as u64
    }

    fn build_packet(&mut self, payload: &DtmfPayload, marker: bool, seq: &mut u16) -> (p: DtmfPacket)
        requires
            payload.event <= 15,
        ensures
            p@ == old(self).packet(*payload, marker, *old(seq)),
            *final(self) == old(self).advanced(),
            *final(seq) == (*old(seq)).wrapping_add(1),
    {
        let sequence: u16 = *seq;
        *seq = sequence.wrapping_add(1);
        let timestamp: u32 = self.digit_timestamp;
        if self.rtp_bugs.sonus_dtmf_timestamp {
            self.digit_timestamp = timestamp.wrapping_add(160);
        }
        let marker = marker && !self.rtp_bugs.never_send_marker
            && !self.rtp_bugs.sonus_dtmf_timestamp;
        DtmfPacket {
            payload_type: self.payload_type,
            sequence,
            timestamp,
            ssrc: self.ssrc,
            marker,
            payload: payload.serialize(),
        }
    }

    /// Start a digit. A digit in progress is ended first.
    pub fn start_digit(
        &mut self,
        digit: char,
        duration_ms: u32,
        seq: &mut u16,
        audio_timestamp: u32,
        interval_ms: u32,
    ) -> (r: Result<Vec<DtmfPacket>, RtpSipError>)
        ensures
            match r {
                Ok(v) => exists|e: DtmfEvent|
                    {
                        &&& #[trigger] e.character() == text::ascii_upper(digit)
                        &&& packets_of(v@) == old(self).start_packets(
                            e,
                            audio_timestamp,
                            interval_ms,
                            *old(seq),
                        )
                        &&& *final(self) == old(self).started(
                            e,
                            duration_ms,
                            audio_timestamp,
                            interval_ms,
                        )
                        &&& *final(seq) == old(self).end_seq(*old(seq)).wrapping_add(1)
                    },
                Err(e) => {
                    &&& forall|e: DtmfEvent| e.character() != text::ascii_upper(digit)
                    &&& e.is_rtp("Invalid DTMF digit: "@ + seq![digit])
                    &&& *final(self) == *old(self)
                    &&& *final(seq) == *old(seq)
                },
            },
    {
        let event = match DtmfEvent::from_char(digit) {
            Some(e) => e,
            None => {
                let m = String::from_str("Invalid DTMF digit: ").concat(
                    text::char_text(digit).as_str(),
                );
                return Err(RtpSipError::Rtp(m));
            },
        };
        let mut packets = self.end_digit(seq);
        let ghost ended = packets_of(packets@);
        let ghost s1 = *self;
        self.digit_timestamp = audio_timestamp;
        self.out_digit = Some(event);
        self.out_digit_dur = if duration_ms > 536870911 {
            u32::MAX
        } else {
            duration_ms * 8
        };
        let interval: u32 = if interval_ms == 0 {
            1
        } else {
            interval_ms
        };
        let first: u16 = DtmfPayload::ms_to_timestamp(interval);
        let payload = DtmfPayload::new(event, false, first);
        let packet = self.build_packet(&payload, true, seq);
        self.out_digit_sofar = first as u32;
        packets.push(packet);
        proof {
            assert(packets_of(packets@) =~= ended.push(packet@));
            assert(event.character() == text::ascii_upper(digit));
        }
        Ok(packets)
    }

    /// Continue the digit by one interval.
    pub fn continue_digit(&mut self, interval_ms: u32, seq: &mut u16) -> (r: Option<DtmfPacket>)
        requires
            old(self).in_progress() ==> old(self).next_duration(interval_ms) <= u32::MAX,
        ensures
            match r {
                Some(p) => old(self).continue_packet(interval_ms, *old(seq)) == Some(p@),
                None => old(self).continue_packet(interval_ms, *old(seq)) is None,
            },
            *final(self) == old(self).continued(interval_ms),
            *final(seq) == if r is Some {
                (*old(seq)).wrapping_add(1)
            } else {
                *old(seq)
            },
    {
        let digit = match self.out_digit {
            Some(e) => e,
            None => {
                return None;
            },
        };
        let total: u32 = self.out_digit_dur;
        if self.out_digit_sofar >= total {
            return None;
        }
        self.out_digit_sofar = self.out_digit_sofar + DtmfPayload::ms_to_timestamp(interval_ms)
            as u32;
        let sofar: u32 = self.out_digit_sofar;
        if sofar >= total {
            None
        } else {
            let duration: u16 = if sofar > 0xFFFF {
                0xFFFF
            } else {
                sofar as u16
            };
            let payload = DtmfPayload::new(digit, false, duration);
            Some(self.build_packet(&payload, false, seq))
        }
    }

    /// Whether nothing is left to send but the end.
    pub fn is_complete(&self) -> (r: bool)
        ensures
            r == !self.in_progress(),
    {
        self.out_digit.is_none() || self.out_digit_sofar >= self.out_digit_dur
    }

    /// End the digit, with the duration that was sent.
    pub fn end_digit(&mut self, seq: &mut u16) -> (packets: Vec<DtmfPacket>)
        ensures
            packets_of(packets@) == old(self).end_packets(*old(seq)),
            *final(self) == old(self).ended(),
            *final(seq) == old(self).end_seq(*old(seq)),
    {
        let mut packets: Vec<DtmfPacket> = Vec::new();
        match self.out_digit {
            None => {},
            Some(digit) => {
                self.out_digit = None;
                let duration: u16 = if self.out_digit_sofar > 0xFFFF {
                    0xFFFF
                } else {
                    self.out_digit_sofar as u16
                };
                let payload = DtmfPayload::new(digit, true, duration);
                let first = self.build_packet(&payload, false, seq);
                packets.push(first);
                if self.rtp_bugs.sonus_dtmf_timestamp {
                    packets.push(self.build_packet(&payload, false, seq));
                    packets.push(self.build_packet(&payload, false, seq));
                } else {
                    packets.push(first);
                    packets.push(first);
                    self.digit_timestamp = self.digit_timestamp.wrapping_add(self.out_digit_dur);
                }
            },
        }
        assert(packets_of(packets@) =~= old(self).end_packets(*old(seq)));
        packets
    }

    /// All packets of one digit: the start, one packet for each interval that
    /// the digit lasts, and the end.
    pub fn generate_digit(
        &mut self,
        digit: char,
        duration_ms: u32,
        interval_ms: u32,
        seq: &mut u16,
        audio_timestamp: u32,
    ) -> (r: Result<Vec<DtmfPacket>, RtpSipError>)
        requires
            names_event(digit) ==> DtmfSender::digit_fits(duration_ms, interval_ms),
        ensures
            match r {
                Ok(v) => exists|e: DtmfEvent|
                    {
                        let s = old(self).started(e, duration_ms, audio_timestamp, interval_ms);
                        let q = old(self).end_seq(*old(seq)).wrapping_add(1);
                        let n = DtmfSender::intervals(duration_ms, interval_ms);
                        let q2 = s.seq_after(n, interval_ms, q);
                        &&& #[trigger] e.character() == text::ascii_upper(digit)
                        &&& packets_of(v@) == old(self).start_packets(
                            e,
                            audio_timestamp,
                            interval_ms,
                            *old(seq),
                        ) + s.packets_after(n, interval_ms, q) + s.after(
                            n,
                            interval_ms,
                        ).end_packets(q2)
                        &&& *final(self) == s.after(n, interval_ms).ended()
                        &&& *final(seq) == s.after(n, interval_ms).end_seq(q2)
                    },
                Err(e) => {
                    &&& forall|e: DtmfEvent| e.character() != text::ascii_upper(digit)
                    &&& e.is_rtp("Invalid DTMF digit: "@ + seq![digit])
                    &&& *final(self) == *old(self)
                    &&& *final(seq) == *old(seq)
                },
            },
    {
        let mut packets = match self.start_digit(
            digit,
            duration_ms,
            seq,
            audio_timestamp,
            interval_ms,
        ) {
            Ok(v) => v,
            Err(e) => {
                return Err(e);
            },
        };
        let ghost event = self.out_digit->Some_0;
        assert(event.character() == text::ascii_upper(digit));
        let ghost s = *self;
        let ghost q = *seq;
        let ghost head = packets_of(packets@);
        let wanted: u32 = (duration_ms + (interval_ms - 1)) / interval_ms;
        let n: u32 = if wanted < 1 {
            1
        } else {
            wanted
        };
        let mut i: u32 = 0;
        while i < n
            invariant
                i <= n,
                interval_ms > 0,
                n == DtmfSender::intervals(duration_ms, interval_ms),
                DtmfSender::units_sent(duration_ms, interval_ms) <= u32::MAX,
                self.in_progress() ==> self.out_digit_sofar == (i + 1) * duration_cap(
                    interval_ms * 8,
                ),
                s.out_digit_dur == DtmfSender::digit_units(duration_ms),
                self.out_digit_dur == s.out_digit_dur,
                *self == s.after(i as nat, interval_ms),
                *seq == s.seq_after(i as nat, interval_ms, q),
                packets_of(packets@) == head + s.packets_after(i as nat, interval_ms, q),
            decreases n - i,
        {
            let ghost before = packets_of(packets@);
            proof {
                if self.in_progress() {
                    lemma_units(
                        DtmfSender::digit_units(duration_ms) as int,
                        duration_cap(interval_ms * 8) as int,
                        i + 1,
                        n as int,
                    );
                }
            }
            match self.continue_digit(interval_ms, seq) {
                Some(p) => {
                    packets.push(p);
                    assert(packets_of(packets@) =~= before.push(p@));
                },
                None => {},
            }
            i += 1;
            assert(packets_of(packets@) =~= head + s.packets_after(i as nat, interval_ms, q));
        }
        let ghost body = packets_of(packets@);
        let mut end = self.end_digit(seq);
        let ghost tail = packets_of(end@);
        let ghost both = packets@ + end@;
        packets.append(&mut end);
        proof {
            assert(packets_of(both) =~= body + tail);
            assert(event.character() == text::ascii_upper(digit));
        }
        Ok(packets)
    }
}

/// One interval more is within what is sent, as long as the digit lasts.
proof fn lemma_units(total: int, step: int, k: int, n: int)
    requires
        step > 0,
        k * step < total,
        0 < k <= n,
    ensures
        ({
            let whole = (total + step - 1) / step;
            (k + 1) * step == k * step + step && k * step + step <= if whole < n + 1 {
                whole * step
            } else {
                (n + 1) * step
            }
        }),
{
    let whole = (total + step - 1) / step;
    vstd::arithmetic::div_mod::lemma_fundamental_div_mod(total + step - 1, step);
    assert(k + 1 <= whole && (k + 1) * step == k * step + step && (k + 1) * step <= whole * step
        && (k + 1) * step <= (n + 1) * step) by (nonlinear_arith)
        requires
            step > 0,
            k * step < total,
            k <= n,
            total + step - 1 == step * whole + (total + step - 1) % step,
            0 <= (total + step - 1) % step < step,
    ;
}

// ---------------------------------------------------------------------------
// Detector
// ---------------------------------------------------------------------------

/// A detected digit.
#[derive(Debug, Clone, Copy, PartialEq, Eq, Structural)]
pub struct DetectedDtmf {
    pub digit: char,
    pub event: DtmfEvent,
    /// Duration in milliseconds.
    pub duration_ms: u32,
    /// Whether an end packet completed the digit.
    pub is_end: bool,
}

/// Detects the digits in a stream of telephone events: packets with one
/// timestamp belong to one digit, which is reported at its end.
pub struct DtmfDetector {
    /// Sequence number of the last packet taken, 0 for none.
    pub prev_seq: u16,
    /// Timestamp of the last packet taken.
    pub in_digit_ts: u32,
    /// Timestamp of the last digit.
    pub last_in_digit_ts: u32,
    /// Packets in a row with one timestamp.
    pub in_digit_sanity: u32,
    /// Last duration.
    pub last_duration: u16,
    /// What durations that wrapped add up to.
    pub duration_flip: u32,
    /// The digit in progress.
    pub current_digit: Option<DtmfEvent>,
    /// Payload type, 0 for any dynamic one.
    pub expected_pt: u8,
    /// The dynamic type that came first, 0 for none.
    pub latched_pt: u8,
    /// Digits not yet collected.
    pub detected_queue: VecDeque<DetectedDtmf>,
    /// Timestamp of the last digit that ended, 0 for none.
    pub last_end_timestamp: u32,
    /// Timestamp of the digit in progress, 0 for none.
    pub first_packet_ts: u32,
    pub end_timeout_ms: u32,
    /// When the digit in progress started, in nanoseconds.
    pub digit_start_time: Option<u64>,
}

/// The mathematical content of a detector.
#[verifier::ext_equal]
pub struct DetectorModel {
    pub prev_seq: u16,
    pub in_digit_ts: u32,
    pub last_in_digit_ts: u32,
    pub in_digit_sanity: u32,
    pub last_duration: u16,
    pub duration_flip: u32,
    pub current_digit: Option<DtmfEvent>,
    pub expected_pt: u8,
    pub latched_pt: u8,
    pub queue: Seq<DetectedDtmf>,
    pub last_end_timestamp: u32,
    pub first_packet_ts: u32,
    pub end_timeout_ms: u32,
    pub digit_start_time: Option<u64>,
}

impl View for DtmfDetector {
    type V = DetectorModel;

    open spec fn view(&self) -> DetectorModel {
        DetectorModel {
            prev_seq: self.prev_seq,
            in_digit_ts: self.in_digit_ts,
            last_in_digit_ts: self.last_in_digit_ts,
            in_digit_sanity: self.in_digit_sanity,
            last_duration: self.last_duration,
            duration_flip: self.duration_flip,
            current_digit: self.current_digit,
            expected_pt: self.expected_pt,
            latched_pt: self.latched_pt,
            queue: self.detected_queue@,
            last_end_timestamp: self.last_end_timestamp,
            first_packet_ts: self.first_packet_ts,
            end_timeout_ms: self.end_timeout_ms,
            digit_start_time: self.digit_start_time,
        }
    }
}

impl DetectorModel {
    /// The counters stay in their ranges.
    pub open spec fn valid(self) -> bool {
        self.in_digit_sanity <= DTMF_SANITY_LIMIT + 1 && self.duration_flip <= DTMF_MAX_DURATION
    }

    /// A detector that has seen nothing.
    pub open spec fn fresh(pt: u8) -> DetectorModel {
        DetectorModel {
            prev_seq: 0,
            in_digit_ts: 0,
            last_in_digit_ts: 0,
            in_digit_sanity: 0,
            last_duration: 0,
            duration_flip: 0,
            current_digit: None,
            expected_pt: pt,
            latched_pt: 0,
            queue: Seq::empty(),
            last_end_timestamp: 0,
            first_packet_ts: 0,
            end_timeout_ms: DTMF_END_TIMEOUT_MS,
            digit_start_time: None,
        }
    }

    /// The detector without what it knows of the stream; the digits that wait,
    /// the payload types and the timeout stay.
    pub open spec fn cleared(self) -> DetectorModel {
        DetectorModel {
            expected_pt: self.expected_pt,
            latched_pt: self.latched_pt,
            queue: self.queue,
            end_timeout_ms: self.end_timeout_ms,
            ..DetectorModel::fresh(0)
        }
    }

    /// Whether packets of a payload type count.
    pub open spec fn accepts(self, pt: u8) -> bool {
        if self.expected_pt != 0 {
            pt == self.expected_pt
        } else {
            96 <= pt <= 127 && (self.latched_pt == 0 || pt == self.latched_pt)
        }
    }

    /// The first dynamic payload type is kept.
    pub open spec fn latched(self, pt: u8) -> DetectorModel {
        if self.expected_pt == 0 && self.latched_pt == 0 {
            DetectorModel { latched_pt: pt, ..self }
        } else {
            self
        }
    }

    /// Whether a packet comes too close behind the last digit: it belongs to
    /// that digit without ending it, or its digit begins within 80 ms.
    pub open spec fn too_close(self, ts: u32, is_end: bool) -> bool {
        self.last_end_timestamp != 0 && if ts == self.last_end_timestamp {
            !is_end
        } else {
            ts.wrapping_sub(self.last_end_timestamp) < DTMF_INTERDIGIT_GAP
        }
    }

    /// Whether a packet of the digit in progress is a copy or came late.
    pub open spec fn reordered(self, seq: u16, ts: u32) -> bool {
        self.prev_seq != 0 && ts == self.in_digit_ts && (seq == self.prev_seq || seq.wrapping_sub(
            self.prev_seq,
        ) > 0x8000)
    }

    /// Whether the stream repeats one timestamp for ever.
    pub open spec fn stuck(self, ts: u32) -> bool {
        ts == self.in_digit_ts && self.in_digit_sanity > DTMF_SANITY_LIMIT
    }

    /// The packet is taken.
    pub open spec fn seen(self, seq: u16, ts: u32) -> DetectorModel {
        DetectorModel {
            in_digit_ts: ts,
            prev_seq: seq,
            in_digit_sanity: if ts == self.in_digit_ts {
                (self.in_digit_sanity + 1) as u32
            } else {
                0
            },
            ..self
        }
    }

    /// The timeout in timestamp units.
    pub open spec fn timeout_units(self) -> int {
        if self.end_timeout_ms * 8 > u32::MAX {
            u32::MAX as int
        } else {
            self.end_timeout_ms * 8
        }
    }

    /// Milliseconds since the digit in progress started.
    pub open spec fn waited_ms(self, now_ns: u64) -> int {
        match self.digit_start_time {
            Some(t) => if now_ns < t {
                0
            } else {
                ((now_ns - t) / 1_000_000) % 0x1_0000_0000
            },
            None => 0,
        }
    }

    /// Whether the digit in progress has lasted too long, by the timestamps or
    /// by the clock.
    pub open spec fn overdue(self, ts: u32, now_ns: u64) -> bool {
        self.current_digit is Some && ({
            ||| self.first_packet_ts != 0 && self.timeout_units() < ts.wrapping_sub(
                self.first_packet_ts,
            ) < 0x8000_0000
            ||| self.digit_start_time is Some && self.waited_ms(now_ns) > self.end_timeout_ms
        })
    }

    /// The digit in progress as reported.
    pub open spec fn report(self, units: int, is_end: bool) -> DetectedDtmf {
        let e = self.current_digit->Some_0;
        DetectedDtmf {
            digit: e.character(),
            event: e,
            duration_ms: if units / 8 < DTMF_MIN_DURATION_MS {
                DTMF_MIN_DURATION_MS
            } else {
                (units / 8) as u32
            },
            is_end,
        }
    }

    /// The digit in progress is reported without its end.
    pub open spec fn forced(self) -> DetectorModel {
        DetectorModel {
            queue: self.queue.push(self.report(self.last_duration + self.duration_flip, false)),
            current_digit: None,
            duration_flip: 0,
            last_duration: 0,
            last_end_timestamp: self.last_in_digit_ts,
            first_packet_ts: 0,
            digit_start_time: None,
            ..self
        }
    }

    /// A digit begins.
    pub open spec fn begun(self, event: DtmfEvent, ts: u32, now_ns: u64) -> DetectorModel {
        DetectorModel {
            current_digit: Some(event),
            last_in_digit_ts: ts,
            last_duration: 0,
            duration_flip: 0,
            first_packet_ts: ts,
            digit_start_time: Some(now_ns),
            ..self
        }
    }

    /// Whether a duration has wrapped: it fell to less than half of one in the
    /// upper half of the range.
    pub open spec fn wrapped(self, duration: u16) -> bool {
        self.last_duration >= 0x8000 && duration < self.last_duration / 2
    }

    /// The duration so far, wrapped ones added up.
    pub open spec fn total(self, duration: u16) -> int {
        duration + self.duration_flip + if self.wrapped(duration) {
            0xFFFFint
        } else {
            0int
        }
    }

    /// The duration is noted.
    pub open spec fn measured(self, duration: u16) -> DetectorModel {
        DetectorModel {
            last_duration: duration,
            duration_flip: (self.total(duration) - duration) as u32,
            ..self
        }
    }

    /// The digit in progress is given up.
    pub open spec fn given_up(self) -> DetectorModel {
        DetectorModel {
            current_digit: None,
            duration_flip: 0,
            first_packet_ts: 0,
            digit_start_time: None,
            ..self
        }
    }

    /// The digit in progress is reported at its end.
    pub open spec fn completed(self, ts: u32, units: int) -> DetectorModel {
        DetectorModel {
            last_end_timestamp: ts,
            queue: self.queue.push(self.report(units, true)),
            ..self.given_up()
        }
    }

    /// The detector with the digits before this packet settled, and the digit
    /// of this packet in progress if it is new.
    pub open spec fn settled(self, event: DtmfEvent, ts: u32, now_ns: u64) -> DetectorModel {
        let a = if self.overdue(ts, now_ns) {
            self.forced()
        } else {
            self
        };
        if ts == a.last_in_digit_ts {
            a
        } else if a.current_digit is Some {
            a.forced().begun(event, ts, now_ns)
        } else {
            a.begun(event, ts, now_ns)
        }
    }

    /// The duration of a packet is taken in, and its end.
    pub open spec fn counted(self, d: DtmfPayload, ts: u32) -> (DetectorModel, Option<DetectedDtmf>) {
        let total = self.total(d.duration);
        let m = self.measured(d.duration);
        if total > DTMF_MAX_DURATION {
            (m.cleared(), None)
        } else if !d.is_end || self.current_digit is None {
            (m, None)
        } else if total == 0 {
            (m.given_up(), None)
        } else {
            (m.completed(ts, total), Some(m.report(total, true)))
        }
    }

    /// What a packet does.
    pub open spec fn processed(
        self,
        pt: u8,
        seq: u16,
        ts: u32,
        payload: Seq<u8>,
        now_ns: u64,
    ) -> (DetectorModel, Option<DetectedDtmf>) {
        let parsed = DtmfPayload::parsed(payload);
        if !self.accepts(pt) || parsed is None {
            (self, None)
        } else {
            let d = parsed->Some_0;
            let event = DtmfEvent::numbered(d.event)->Some_0;
            let a = self.latched(pt);
            if a.too_close(ts, d.is_end) || a.reordered(seq, ts) {
                (a, None)
            } else if a.stuck(ts) {
                (a.cleared(), None)
            } else {
                let b = a.seen(seq, ts).settled(event, ts, now_ns);
                if b.current_digit is Some && b.current_digit != Some(event) {
                    (b, None)
                } else {
                    b.counted(d, ts)
                }
            }
        }
    }
}

impl DtmfDetector {
    /// Create a detector for the default payload type.
    pub fn new() -> (d: DtmfDetector)
        ensures
            d@ == DetectorModel::fresh(TELEPHONE_EVENT_PT),
            d@.valid(),
    {
        let d = DtmfDetector {
            prev_seq: 0,
            in_digit_ts: 0,
            last_in_digit_ts: 0,
            in_digit_sanity: 0,
            last_duration: 0,
            duration_flip: 0,
            current_digit: None,
            expected_pt: TELEPHONE_EVENT_PT,
            latched_pt: 0,
            detected_queue: VecDeque::new(),
            last_end_timestamp: 0,
            first_packet_ts: 0,
            end_timeout_ms: DTMF_END_TIMEOUT_MS,
            digit_start_time: None,
        };
        assert(d@ =~= DetectorModel::fresh(TELEPHONE_EVENT_PT));
        d
    }

    /// Create a detector for a payload type, 0 for any dynamic one.
    pub fn with_payload_type(pt: u8) -> (d: DtmfDetector)
        ensures
            d@ == DetectorModel::fresh(pt),
            d@.valid(),
    {
        let mut d = DtmfDetector::new();
        d.expected_pt = pt;
        assert(d@ =~= DetectorModel::fresh(pt));
        d
    }

    /// Set the payload type, as negotiated.
    pub fn set_expected_pt(&mut self, pt: u8)
        ensures
            final(self)@ == (DetectorModel { expected_pt: pt, latched_pt: pt, ..old(self)@ }),
    {
        self.expected_pt = pt;
        self.latched_pt = pt;
    }

    /// Set the time after which a digit without an end is reported.
    pub fn set_end_timeout_ms(&mut self, ms: u32)
        ensures
            final(self)@ == (DetectorModel { end_timeout_ms: ms, ..old(self)@ }),
    {
        self.end_timeout_ms = ms;
    }

    /// Forget the stream and the digits that wait; the payload types stay.
    pub fn reset(&mut self)
        ensures
            final(self)@ == (DetectorModel { queue: Seq::empty(), ..old(self)@.cleared() }),
            final(self)@.valid(),
    {
        self.reset_state();
        self.detected_queue = VecDeque::new();
        assert(self@ =~= (DetectorModel { queue: Seq::empty(), ..old(self)@.cleared() }));
    }

    fn reset_state(&mut self)
        ensures
            final(self)@ == old(self)@.cleared(),
    {
        self.prev_seq = 0;
        self.in_digit_ts = 0;
        self.last_in_digit_ts = 0;
        self.in_digit_sanity = 0;
        self.last_duration = 0;
        self.duration_flip = 0;
        self.current_digit = None;
        self.last_end_timestamp = 0;
        self.first_packet_ts = 0;
        self.digit_start_time = None;
        assert(self@ =~= old(self)@.cleared());
    }

    fn accepts_type(&self, pt: u8) -> (r: bool)
        ensures
            r == self@.accepts(pt),
    {
        if self.expected_pt != 0 {
            pt == self.expected_pt
        } else {
            pt >= 96 && pt <= 127 && (self.latched_pt == 0 || pt == self.latched_pt)
        }
    }

    fn is_too_close(&self, ts: u32, is_end: bool) -> (r: bool)
        ensures
            r == self@.too_close(ts, is_end),
    {
        if self.last_end_timestamp == 0 {
            false
        } else if ts == self.last_end_timestamp {
            !is_end
        } else {
            ts.wrapping_sub(self.last_end_timestamp) < DTMF_INTERDIGIT_GAP
        }
    }

    fn is_reordered(&self, seq: u16, ts: u32) -> (r: bool)
        ensures
            r == self@.reordered(seq, ts),
    {
        self.prev_seq != 0 && ts == self.in_digit_ts && (seq == self.prev_seq || seq.wrapping_sub(
            self.prev_seq,
        ) > 0x8000)
    }

    fn is_overdue(&self, ts: u32, now_ns: u64) -> (r: bool)
        ensures
            r == self@.overdue(ts, now_ns),
    {
        if self.current_digit.is_none() {
            return false;
        }
        if self.first_packet_ts != 0 {
            let limit: u32 = if self.end_timeout_ms > 536870911 {
                u32::MAX
            } else {
                self.end_timeout_ms * 8
            };
            let elapsed: u32 = ts.wrapping_sub(self.first_packet_ts);
            if elapsed > limit && elapsed < 0x8000_0000 {
                return true;
            }
        }
        match self.digit_start_time {
            Some(t) => {
                let waited: u64 = if now_ns < t {
                    0
                } else {
                    ((now_ns - t) / 1_000_000) % 0x1_0000_0000
                };
                waited > self.end_timeout_ms as u64
            },
            None => false,
        }
    }

    fn report_digit(event: DtmfEvent, units: u32, is_end: bool) -> (d: DetectedDtmf)
        ensures
            forall|m: DetectorModel|
                m.current_digit == Some(event) ==> d == #[trigger] m.report(units as int, is_end),
    {
        let ms: u32 = units / 8;
        DetectedDtmf {
            digit: event.to_char(),
            event,
            duration_ms: if ms < DTMF_MIN_DURATION_MS {
                DTMF_MIN_DURATION_MS
            } else {
                ms
            },
            is_end,
        }
    }

    fn force(&mut self)
        requires
            old(self)@.current_digit is Some,
            old(self)@.valid(),
        ensures
            final(self)@ == old(self)@.forced(),
    {
        match self.current_digit {
            Some(event) => {
                let units: u32 = self.last_duration as u32 + self.duration_flip;
                let digit = DtmfDetector::report_digit(event, units, false);
                self.detected_queue.push_back(digit);
                self.current_digit = None;
                self.duration_flip = 0;
                self.last_duration = 0;
                self.last_end_timestamp = self.last_in_digit_ts;
                self.first_packet_ts = 0;
                self.digit_start_time = None;
                assert(digit == old(self)@.report(units as int, false));
            },
            None => {},
        }
        assert(self@ =~= old(self)@.forced());
    }

    fn settle(&mut self, event: DtmfEvent, ts: u32, now_ns: u64)
        requires
            old(self)@.valid(),
        ensures
            final(self)@ == old(self)@.settled(event, ts, now_ns),
            final(self)@.valid(),
    {
        if self.is_overdue(ts, now_ns) {
            self.force();
        }
        if ts != self.last_in_digit_ts {
            if self.current_digit.is_some() {
                self.force();
            }
            let ghost m = self@;
            self.current_digit = Some(event);
            self.last_in_digit_ts = ts;
            self.last_duration = 0;
            self.duration_flip = 0;
            self.first_packet_ts = ts;
            self.digit_start_time = Some(now_ns);
            assert(self@ =~= m.begun(event, ts, now_ns));
        }
    }

    fn count(&mut self, d: DtmfPayload, ts: u32) -> (r: Option<DetectedDtmf>)
        requires
            old(self)@.valid(),
        ensures
            (final(self)@, r) == old(self)@.counted(d, ts),
            final(self)@.valid(),
    {
        let ghost m = self@;
        let wrapped: bool = self.last_duration >= 0x8000 && d.duration < self.last_duration / 2;
        self.last_duration = d.duration;
        if wrapped {
            self.duration_flip = self.duration_flip + 0xFFFF;
        }
        let total: u32 = d.duration as u32 + self.duration_flip;
        assert(self@ =~= m.measured(d.duration));
        assert(total == m.total(d.duration));
        if total > DTMF_MAX_DURATION {
            self.reset_state();
            return None;
        }
        let event = match self.current_digit {
            Some(event) => event,
            None => {
                return None;
            },
        };
        if !d.is_end {
            return None;
        }
        let ghost m2 = self@;
        self.current_digit = None;
        self.duration_flip = 0;
        self.first_packet_ts = 0;
        self.digit_start_time = None;
        assert(self@ =~= m2.given_up());
        if total == 0 {
            return None;
        }
        let digit = DtmfDetector::report_digit(event, total, true);
        self.last_end_timestamp = ts;
        self.detected_queue.push_back(digit);
        assert(digit == m2.report(total as int, true));
        assert(self@ =~= m2.completed(ts, total as int));
        Some(digit)
    }

    /// Take in a packet that came at `now_ns`. A digit is returned, and queued,
    /// when its end arrives; one whose end is lost is only queued.
    pub fn process_rtp(
        &mut self,
        payload_type: u8,
        sequence: u16,
        timestamp: u32,
        payload: &[u8],
        now_ns: u64,
    ) -> (r: Option<DetectedDtmf>)
        requires
            old(self)@.valid(),
        ensures
            (final(self)@, r) == old(self)@.processed(
                payload_type,
                sequence,
                timestamp,
                payload@,
                now_ns,
            ),
            final(self)@.valid(),
    {
        if !self.accepts_type(payload_type) {
            return None;
        }
        let d = match DtmfPayload::parse(payload) {
            Some(d) => d,
            None => {
                return None;
            },
        };
        let event = match DtmfEvent::from_code(d.event) {
            Some(e) => e,
            None => {
                return None;
            },
        };
        if self.expected_pt == 0 && self.latched_pt == 0 {
            self.latched_pt = payload_type;
        }
        let ghost a = self@;
        assert(a =~= old(self)@.latched(payload_type));
        if self.is_too_close(timestamp, d.is_end) || self.is_reordered(sequence, timestamp) {
            return None;
        }
        if timestamp == self.in_digit_ts && self.in_digit_sanity > DTMF_SANITY_LIMIT {
            self.reset_state();
            return None;
        }
        self.in_digit_sanity = if timestamp == self.in_digit_ts {
            self.in_digit_sanity + 1
        } else {
            0
        };
        self.in_digit_ts = timestamp;
        self.prev_seq = sequence;
        assert(self@ =~= a.seen(sequence, timestamp));
        self.settle(event, timestamp, now_ns);
        if let Some(e) = self.current_digit {
            if e != event {
                return None;
            }
        }
        self.count(d, timestamp)
    }

    /// Collect the digit that waits longest.
    pub fn pop_digit(&mut self) -> (r: Option<DetectedDtmf>)
        ensures
            match r {
                Some(d) => old(self)@.queue.len() > 0 && d == old(self)@.queue[0] && final(self)@
                    == (DetectorModel {
                    queue: old(self)@.queue.drop_first(),
                    ..old(self)@
                }),
                None => old(self)@.queue.len() == 0 && final(self)@ == old(self)@,
            },
    {
        let r = self.detected_queue.pop_front();
        proof {
            if old(self)@.queue.len() > 0 {
                assert(self@.queue =~= old(self)@.queue.drop_first());
            } else {
                assert(self@ =~= old(self)@);
            }
        }
        r
    }

    /// Whether digits wait.
    pub fn has_digits(&self) -> (r: bool)
        ensures
            r == (self@.queue.len() > 0),
    {
        self.detected_queue.len() > 0
    }
}

impl Default for DtmfDetector {
    fn default() -> (d: DtmfDetector)
        ensures
            d@ == DetectorModel::fresh(TELEPHONE_EVENT_PT),
            d@.valid(),
    {
        DtmfDetector::new()
    }
}

// ---------------------------------------------------------------------------
// Laws
// ---------------------------------------------------------------------------

/// A payload of an event, with some duration.
pub open spec fn carries(payload: Seq<u8>, e: DtmfEvent, is_end: bool) -> bool {
    exists|d: u16| payload == #[trigger] DtmfPayload::of(e, is_end, d).bytes()
}

/// The packets of one digit from an idle sender.
pub open spec fn digit_packets(
    s: DtmfSender,
    e: DtmfEvent,
    duration_ms: u32,
    interval_ms: u32,
    seq: u16,
    ts: u32,
) -> Seq<DtmfPacketModel> {
    let a = s.started(e, duration_ms, ts, interval_ms);
    let q = s.end_seq(seq).wrapping_add(1);
    let n = DtmfSender::intervals(duration_ms, interval_ms);
    s.start_packets(e, ts, interval_ms, seq) + a.packets_after(n, interval_ms, q) + a.after(
        n,
        interval_ms,
    ).end_packets(a.seq_after(n, interval_ms, q))
}

proof fn lemma_after(s: DtmfSender, n: nat, interval_ms: u32, seq: u16)
    requires
        !s.rtp_bugs.sonus_dtmf_timestamp,
        s.out_digit is Some,
        s.out_digit_dur - 1 + duration_cap(interval_ms * 8) <= u32::MAX,
    ensures
        ({
            let a = s.after(n, interval_ms);
            let ps = s.packets_after(n, interval_ms, seq);
            &&& a == (DtmfSender { out_digit_sofar: a.out_digit_sofar, ..s })
            &&& a.out_digit_sofar >= s.out_digit_sofar
            &&& s.seq_after(n, interval_ms, seq) == (seq + ps.len()) % 0x10000
            &&& ps.len() <= n
            &&& forall|i: int|
                #![trigger ps[i]]
                0 <= i < ps.len() ==> {
                    &&& ps[i].timestamp == s.digit_timestamp
                    &&& !ps[i].marker
                    &&& ps[i].sequence == (seq + i) % 0x10000
                    &&& ps[i].ssrc == s.ssrc
                    &&& ps[i].payload_type == s.payload_type
                    &&& carries(ps[i].payload, s.out_digit->Some_0, false)
                }
        }),
    decreases n,
{
    if n > 0 {
        let m = (n - 1) as nat;
        lemma_after(s, m, interval_ms, seq);
        let b = s.after(m, interval_ms);
        let q = s.seq_after(m, interval_ms, seq);
        let before = s.packets_after(m, interval_ms, seq);
        let ps = s.packets_after(n, interval_ms, seq);
        if let Some(p) = b.continue_packet(interval_ms, q) {
            assert(ps == before.push(p));
            let d = duration_cap(b.next_duration(interval_ms));
            assert(p.payload == DtmfPayload::of(s.out_digit->Some_0, false, d).bytes());
            assert forall|i: int| #![trigger ps[i]] 0 <= i < ps.len() implies {
                &&& ps[i].timestamp == s.digit_timestamp
                &&& !ps[i].marker
                &&& ps[i].sequence == (seq + i) % 0x10000
                &&& ps[i].ssrc == s.ssrc
                &&& ps[i].payload_type == s.payload_type
                &&& carries(ps[i].payload, s.out_digit->Some_0, false)
            } by {
                if i < before.len() {
                    assert(ps[i] == before[i]);
                }
            }
        }
    }
}

/// To a device without quirks, an idle sender sends every packet of a digit with
/// the timestamp of the audio; only the first has the marker; sequence numbers
/// go up by one; the last three packets are copies, and they alone carry the end.
#[verifier::spinoff_prover]
#[verifier::rlimit(60)]
pub proof fn law_digit_packets(
    s: DtmfSender,
    e: DtmfEvent,
    duration_ms: u32,
    interval_ms: u32,
    seq: u16,
    ts: u32,
)
    requires
        s.out_digit is None,
        s.rtp_bugs == (RtpBugFlags { sonus_dtmf_timestamp: false, never_send_marker: false }),
        interval_ms > 0,
        DtmfSender::digit_units(duration_ms) - 1 + duration_cap(interval_ms * 8) <= u32::MAX,
    ensures
        ({
            let ps = digit_packets(s, e, duration_ms, interval_ms, seq, ts);
            let n = ps.len() as int;
            &&& n >= 4
            &&& forall|i: int| 0 <= i < n ==> (#[trigger] ps[i]).timestamp == ts
            &&& forall|i: int| 0 <= i < n ==> ((#[trigger] ps[i]).marker <==> i == 0)
            &&& forall|i: int|
                0 <= i <= n - 3 ==> (#[trigger] ps[i]).sequence == (seq + i) % 0x10000
            &&& ps[n - 1] == ps[n - 3]
            &&& ps[n - 2] == ps[n - 3]
            &&& forall|i: int|
                #![trigger ps[i]]
                0 <= i < n ==> carries(ps[i].payload, e, i >= n - 3)
        }),
{
    let a = s.started(e, duration_ms, ts, interval_ms);
    let q = s.end_seq(seq).wrapping_add(1);
    let k = DtmfSender::intervals(duration_ms, interval_ms);
    lemma_after(a, k, interval_ms, q);
    let ps = digit_packets(s, e, duration_ms, interval_ms, seq, ts);
    let n = ps.len() as int;
    let start = s.start_packets(e, ts, interval_ms, seq);
    let mid = a.packets_after(k, interval_ms, q);
    let z = a.after(k, interval_ms);
    let end = z.end_packets(a.seq_after(k, interval_ms, q));
    assert(start.len() == 1);
    assert(end.len() == 3);
    assert(n == 1 + mid.len() + 3);
    assert(forall|i: int| 1 <= i < n - 3 ==> ps[i] == mid[i - 1]);
    assert(ps[n - 3] == end[0] && ps[n - 2] == end[1] && ps[n - 1] == end[2]);
    assert(ps[0] == start[0]);
    assert forall|i: int| #![trigger ps[i]] 0 <= i < n implies carries(
        ps[i].payload,
        e,
        i >= n - 3,
    ) by {
        if i == 0 {
            assert(ps[i].payload == DtmfPayload::of(
                e,
                false,
                DtmfSender::first_duration(interval_ms),
            ).bytes());
        } else if i < n - 3 {
            assert(ps[i] == mid[i - 1]);
        } else {
            let d = duration_cap(z.out_digit_sofar as int);
            assert(ps[i].payload == DtmfPayload::of(e, true, d).bytes());
        }
    }
}

/// A detector after a run of packets, the `i`-th of which came at `at[i]`.
pub open spec fn delivered(
    m: DetectorModel,
    ps: Seq<DtmfPacketModel>,
    at: Seq<u64>,
) -> DetectorModel
    decreases ps.len(),
{
    if ps.len() == 0 {
        m
    } else {
        let p = ps.last();
        delivered(m, ps.drop_last(), at).processed(
            p.payload_type,
            p.sequence,
            p.timestamp,
            p.payload,
            at[ps.len() - 1],
        ).0
    }
}

/// The detector in the middle of a digit.
spec fn midway(
    d: DetectorModel,
    m: DetectorModel,
    e: DtmfEvent,
    ts: u32,
    next_seq: u16,
    count: nat,
    sofar: u32,
    t0: u64,
) -> bool {
    &&& d == (DetectorModel {
        prev_seq: next_seq.wrapping_sub(1),
        in_digit_ts: ts,
        last_in_digit_ts: ts,
        in_digit_sanity: (count - 1) as u32,
        last_duration: d.last_duration,
        duration_flip: 0,
        current_digit: Some(e),
        first_packet_ts: ts,
        digit_start_time: Some(t0),
        ..m
    })
    &&& 1 <= count
    &&& d.last_duration <= duration_cap(sofar as int)
}

proof fn lemma_delivered_push(
    m: DetectorModel,
    ps: Seq<DtmfPacketModel>,
    p: DtmfPacketModel,
    at: Seq<u64>,
)
    ensures
        delivered(m, ps.push(p), at) == delivered(m, ps, at).processed(
            p.payload_type,
            p.sequence,
            p.timestamp,
            p.payload,
            at[ps.len() as int],
        ).0,
{
    assert(ps.push(p).drop_last() =~= ps);
}

/// The detector can take a digit with this timestamp from this type: it has
/// none in progress and the digit is no part of the one before.
pub open spec fn ready_for(m: DetectorModel, pt: u8, ts: u32) -> bool {
    &&& m.expected_pt == pt
    &&& pt != 0
    &&& m.current_digit is None
    &&& ts != m.in_digit_ts
    &&& ts != m.last_in_digit_ts
    &&& ts != m.last_end_timestamp
    &&& !m.too_close(ts, false)
}

proof fn lemma_deliver_one(
    d: DetectorModel,
    m: DetectorModel,
    e: DtmfEvent,
    ts: u32,
    next_seq: u16,
    count: nat,
    sofar: u32,
    t0: u64,
    payload: DtmfPayload,
    now_ns: u64,
)
    requires
        midway(d, m, e, ts, next_seq, count, sofar, t0),
        ready_for(m, m.expected_pt, ts),
        count <= DTMF_SANITY_LIMIT,
        payload == DtmfPayload::of(e, payload.is_end, payload.duration),
        payload.duration >= d.last_duration,
        t0 <= now_ns,
        (now_ns - t0) / 1_000_000 <= m.end_timeout_ms,
    ensures
        !payload.is_end ==> midway(
            d.processed(m.expected_pt, next_seq, ts, payload.bytes(), now_ns).0,
            m,
            e,
            ts,
            next_seq.wrapping_add(1),
            count + 1,
            payload.duration as u32,
            t0,
        ),
        payload.is_end && payload.duration > 0 ==> d.processed(
            m.expected_pt,
            next_seq,
            ts,
            payload.bytes(),
            now_ns,
        ).0 == (DetectorModel {
            prev_seq: next_seq,
            in_digit_ts: ts,
            last_in_digit_ts: ts,
            in_digit_sanity: count as u32,
            last_duration: payload.duration,
            duration_flip: 0,
            current_digit: None,
            first_packet_ts: 0,
            digit_start_time: None,
            last_end_timestamp: ts,
            queue: m.queue.push(
                DetectorModel { current_digit: Some(e), ..m }.report(
                    payload.duration as int,
                    true,
                ),
            ),
            ..m
        }),
{
    law_payload_round_trip(payload);
    law_event_codes(e, 0);
    let a = d.latched(m.expected_pt);
    assert(a == d);
    assert(!a.too_close(ts, payload.is_end));
    assert(!a.reordered(next_seq, ts));
    assert(!a.stuck(ts));
    let b = a.seen(next_seq, ts);
    assert(!b.overdue(ts, now_ns));
    assert(b.settled(e, ts, now_ns) == b);
    assert(b.total(payload.duration) == payload.duration);
}

proof fn lemma_deliver_middle(
    m: DetectorModel,
    s: DtmfSender,
    first: Seq<DtmfPacketModel>,
    n: nat,
    interval_ms: u32,
    seq: u16,
    at: Seq<u64>,
    t0: u64,
)
    requires
        !s.rtp_bugs.sonus_dtmf_timestamp,
        s.out_digit is Some,
        s.out_digit_dur - 1 + duration_cap(interval_ms * 8) <= u32::MAX,
        s.payload_type == m.expected_pt,
        ready_for(m, m.expected_pt, s.digit_timestamp),
        midway(
            delivered(m, first, at),
            m,
            s.out_digit->Some_0,
            s.digit_timestamp,
            seq,
            first.len(),
            s.out_digit_sofar,
            t0,
        ),
        first.len() + n <= DTMF_SANITY_LIMIT,
        first.len() + n < at.len(),
        forall|i: int| 0 <= i < at.len() ==> t0 <= #[trigger] at[i],
        forall|i: int|
            0 <= i < at.len() ==> (#[trigger] at[i] - t0) / 1_000_000 <= m.end_timeout_ms,
    ensures
        midway(
            delivered(m, first + s.packets_after(n, interval_ms, seq), at),
            m,
            s.out_digit->Some_0,
            s.digit_timestamp,
            s.seq_after(n, interval_ms, seq),
            first.len() + s.packets_after(n, interval_ms, seq).len(),
            s.after(n, interval_ms).out_digit_sofar,
            t0,
        ),
    decreases n,
{
    if n == 0 {
        assert(first + s.packets_after(0, interval_ms, seq) =~= first);
    } else {
        let k = (n - 1) as nat;
        lemma_deliver_middle(m, s, first, k, interval_ms, seq, at, t0);
        lemma_after(s, k, interval_ms, seq);
        let b = s.after(k, interval_ms);
        let q = s.seq_after(k, interval_ms, seq);
        let before = first + s.packets_after(k, interval_ms, seq);
        if let Some(p) = b.continue_packet(interval_ms, q) {
            let d = delivered(m, before, at);
            let payload = DtmfPayload::of(
                s.out_digit->Some_0,
                false,
                duration_cap(b.next_duration(interval_ms)),
            );
            lemma_deliver_one(
                d,
                m,
                s.out_digit->Some_0,
                s.digit_timestamp,
                q,
                before.len(),
                b.out_digit_sofar,
                t0,
                payload,
                at[before.len() as int],
            );
            lemma_delivered_push(m, before, p, at);
            assert(first + s.packets_after(n, interval_ms, seq) =~= before.push(p));
        }
    }
}

/// A digit that a sender sends without quirks, and that reaches a detector
/// whole, in order and in time, is detected exactly once, with its duration.
#[verifier::rlimit(40)]
pub proof fn law_sent_digit_detected(
    s: DtmfSender,
    m: DetectorModel,
    e: DtmfEvent,
    duration_ms: u32,
    interval_ms: u32,
    seq: u16,
    ts: u32,
    at: Seq<u64>,
)
    requires
        s.out_digit is None,
        !s.rtp_bugs.sonus_dtmf_timestamp,
        interval_ms > 0,
        DtmfSender::digit_units(duration_ms) - 1 + duration_cap(interval_ms * 8) <= u32::MAX,
        m.valid(),
        ready_for(m, s.payload_type, ts),
        DtmfSender::intervals(duration_ms, interval_ms) + 3 <= DTMF_SANITY_LIMIT,
        at.len() == DtmfSender::intervals(duration_ms, interval_ms) + 4,
        forall|i: int| 0 <= i < at.len() ==> at[0] <= #[trigger] at[i],
        forall|i: int|
            0 <= i < at.len() ==> (#[trigger] at[i] - at[0]) / 1_000_000 <= m.end_timeout_ms,
    ensures
        delivered(m, digit_packets(s, e, duration_ms, interval_ms, seq, ts), at).queue
            == m.queue.push(
            DetectorModel { current_digit: Some(e), ..m }.report(
                duration_cap(
                    s.started(e, duration_ms, ts, interval_ms).after(
                        DtmfSender::intervals(duration_ms, interval_ms),
                        interval_ms,
                    ).out_digit_sofar as int,
                ) as int,
                true,
            ),
        ),
{
    let a = s.started(e, duration_ms, ts, interval_ms);
    let q = seq.wrapping_add(1);
    let n = DtmfSender::intervals(duration_ms, interval_ms);
    let t0 = at[0];
    let first = s.start_packets(e, ts, interval_ms, seq);
    let p0 = first[0];
    assert(first =~= Seq::<DtmfPacketModel>::empty().push(p0));
    let fd = DtmfSender::first_duration(interval_ms);
    let payload0 = DtmfPayload::of(e, false, fd);
    law_payload_round_trip(payload0);
    law_event_codes(e, 0);
    lemma_delivered_push(m, Seq::empty(), p0, at);
    assert(delivered(m, Seq::empty(), at) == m);
    assert(m.latched(s.payload_type) == m);
    let b = m.seen(seq, ts);
    assert(b.settled(e, ts, t0) == b.begun(e, ts, t0));
    assert(b.begun(e, ts, t0).total(fd) == fd);
    assert(midway(delivered(m, first, at), m, e, ts, q, 1, fd as u32, t0));
    lemma_deliver_middle(m, a, first, n, interval_ms, q, at, t0);
    lemma_after(a, n, interval_ms, q);
    let mid = first + a.packets_after(n, interval_ms, q);
    let z = a.after(n, interval_ms);
    let zq = a.seq_after(n, interval_ms, q);
    let payload = DtmfPayload::of(e, true, duration_cap(z.out_digit_sofar as int));
    let d = delivered(m, mid, at);
    lemma_deliver_one(
        d,
        m,
        e,
        ts,
        zq,
        mid.len(),
        z.out_digit_sofar,
        t0,
        payload,
        at[mid.len() as int],
    );
    let p = z.packet(payload, false, zq);
    let d1 = delivered(m, mid.push(p), at);
    lemma_delivered_push(m, mid, p, at);
    lemma_delivered_push(m, mid.push(p), p, at);
    lemma_delivered_push(m, mid.push(p).push(p), p, at);
    law_payload_round_trip(payload);
    let d2 = delivered(m, mid.push(p).push(p), at);
    assert(d2.queue == d1.queue && d2.current_digit is None && d2.last_in_digit_ts == ts
        && d2.last_duration == d1.last_duration && d2.duration_flip == 0 && d2.in_digit_sanity
        <= DTMF_SANITY_LIMIT && d2.last_end_timestamp == ts && d2.expected_pt == m.expected_pt);
    let d3 = delivered(m, mid.push(p).push(p).push(p), at);
    assert(d3.queue == d2.queue);
    assert(digit_packets(s, e, duration_ms, interval_ms, seq, ts) =~= mid.push(p).push(p).push(
        p,
    ));
}

/// A packet of another payload type, or one that holds no digit, changes nothing.
pub proof fn law_other_packets_ignored(
    m: DetectorModel,
    pt: u8,
    seq: u16,
    ts: u32,
    payload: Seq<u8>,
    now_ns: u64,
)
    requires
        !m.accepts(pt) || DtmfPayload::parsed(payload) is None,
    ensures
        m.processed(pt, seq, ts, payload, now_ns) == (m, None::<DetectedDtmf>),
{
}

/// Once a digit is reported, the next packet with its timestamp reports nothing.
pub proof fn law_digit_reported_once(
    m: DetectorModel,
    pt: u8,
    seq: u16,
    ts: u32,
    payload: Seq<u8>,
    now_ns: u64,
    pt2: u8,
    seq2: u16,
    payload2: Seq<u8>,
    now2_ns: u64,
)
    requires
        m.valid(),
        m.processed(pt, seq, ts, payload, now_ns).1 is Some,
    ensures
        m.processed(pt, seq, ts, payload, now_ns).0.processed(
            pt2,
            seq2,
            ts,
            payload2,
            now2_ns,
        ).1 is None,
{
}

/// What is detected is queued behind what waits; nothing that waits is lost.
pub proof fn law_queue_grows(
    m: DetectorModel,
    pt: u8,
    seq: u16,
    ts: u32,
    payload: Seq<u8>,
    now_ns: u64,
)
    ensures
        ({
            let (d, r) = m.processed(pt, seq, ts, payload, now_ns);
            &&& m.queue.len() <= d.queue.len()
            &&& d.queue.subrange(0, m.queue.len() as int) == m.queue
            &&& r matches Some(x) ==> d.queue.len() > 0 && d.queue.last() == x
        }),
{
    let (d, r) = m.processed(pt, seq, ts, payload, now_ns);
    assert(d.queue.subrange(0, m.queue.len() as int) =~= m.queue);
}

} // verus!
