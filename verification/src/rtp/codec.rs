//! G.711: 8000 samples a second, one byte each.

pub mod laws;

use crate::error::RtpSipError;
use crate::text;
use vstd::prelude::*;
use vstd::string::*;

verus! {

/// Loudest sample that still counts as silence.
pub const NEAR_SILENCE_THRESHOLD: i16 = 8;

/// The two laws.
#[derive(Debug, Clone, Copy, PartialEq, Eq, Structural)]
pub enum CodecType {
    /// Payload type 0.
    Pcmu,
    /// Payload type 8.
    Pcma,
}

/// A small power of two.
pub open spec fn power(e: int) -> int {
    if e == 0 {
        1
    } else if e == 1 {
        2
    } else if e == 2 {
        4
    } else if e == 3 {
        8
    } else if e == 4 {
        16
    } else if e == 5 {
        32
    } else if e == 6 {
        64
    } else {
        128
    }
}

/// How far a sample is from zero, counting -1 as zero steps away.
pub open spec fn magnitude(x: i16) -> int {
    if x >= 0 {
        x as int
    } else {
        -1 - x
    }
}

/// The sample that a mu-law byte stands for. Its complement holds the sign, an
/// exponent of three bits and a mantissa of four.
pub open spec fn ulaw_sample(b: u8) -> i16 {
    let v = 255 - b;
    let level = ((2 * (v % 16) + 33) * power(v / 16 % 8) - 33) * 4;
    (if b < 128 {
        -level
    } else {
        level
    }) as i16
}

/// The byte that mu-law gives a sample: its sign, and the interval that the
/// sample lies in; samples beyond the last interval get the last one.
pub open spec fn is_ulaw_byte(x: i16, b: u8) -> bool {
    let v = 255 - b;
    let level = magnitude(x) / 4 + 33;
    &&& v >= 128 <==> x < 0
    &&& if level >= 8192 {
        v % 128 == 127
    } else {
        (v % 16 + 16) * power(v / 16 % 8) * 2 <= level < (v % 16 + 17) * power(v / 16 % 8) * 2
    }
}

/// The sample that an A-law byte stands for. With every other bit turned over
/// it holds the sign, an exponent of three bits and a mantissa of four.
pub open spec fn alaw_sample(b: u8) -> i16 {
    let v = b ^ 0x55u8;
    let e = (v / 16 % 8) as int;
    let m = (v % 16) as int;
    let level = if e == 0 {
        16 * m + 8
    } else {
        (16 * m + 264) * power(e - 1)
    };
    (if v < 128 {
        -level
    } else {
        level
    }) as i16
}

/// The byte that A-law gives a sample: its sign, and the interval that the
/// sample lies in.
pub open spec fn is_alaw_byte(x: i16, b: u8) -> bool {
    let v = b ^ 0x55u8;
    let e = (v / 16 % 8) as int;
    let m = (v % 16) as int;
    let level = magnitude(x) / 8;
    &&& v >= 128 <==> x >= 0
    &&& if e == 0 {
        2 * m <= level < 2 * m + 2
    } else {
        (m + 16) * power(e) <= level < (m + 17) * power(e)
    }
}

/// Calls `audio_codec_algorithms::decode_ulaw`, a table of 256 samples, which
/// `ulaw_sample` gives in closed form.
#[verifier::external_body]
fn ulaw_decode(b: u8) -> (x: i16)
    ensures
        x == ulaw_sample(b),
{
    audio_codec_algorithms::decode_ulaw(b)
}

/// Calls `audio_codec_algorithms::encode_ulaw`. The byte has the sample's sign
/// and names the interval that the sample lies in, which leaves one byte.
#[verifier::external_body]
fn ulaw_encode(x: i16) -> (b: u8)
    ensures
        is_ulaw_byte(x, b),
{
    audio_codec_algorithms::encode_ulaw(x)
}

/// Calls `audio_codec_algorithms::decode_alaw`, a table of 256 samples, which
/// `alaw_sample` gives in closed form.
#[verifier::external_body]
fn alaw_decode(b: u8) -> (x: i16)
    ensures
        x == alaw_sample(b),
{
    audio_codec_algorithms::decode_alaw(b)
}

/// Calls `audio_codec_algorithms::encode_alaw`. The byte has the sample's sign
/// and names the interval that the sample lies in, which leaves one byte.
#[verifier::external_body]
fn alaw_encode(x: i16) -> (b: u8)
    ensures
        is_alaw_byte(x, b),
{
    audio_codec_algorithms::encode_alaw(x)
}

/// The codec with an upper-case name.
pub open spec fn codec_named(s: Seq<char>) -> Option<CodecType> {
    if s == "PCMU"@ || s == "ULAW"@ || s == "G711U"@ {
        Some(CodecType::Pcmu)
    } else if s == "PCMA"@ || s == "ALAW"@ || s == "G711A"@ {
        Some(CodecType::Pcma)
    } else {
        None
    }
}

impl CodecType {
    /// The payload type.
    pub open spec fn number(self) -> u8 {
        match self {
            CodecType::Pcmu => 0,
            CodecType::Pcma => 8,
        }
    }

    /// The sample that a byte stands for.
    pub open spec fn sample(self, b: u8) -> i16 {
        match self {
            CodecType::Pcmu => ulaw_sample(b),
            CodecType::Pcma => alaw_sample(b),
        }
    }

    /// Whether a byte is the one for a sample.
    pub open spec fn is_byte(self, x: i16, b: u8) -> bool {
        match self {
            CodecType::Pcmu => is_ulaw_byte(x, b),
            CodecType::Pcma => is_alaw_byte(x, b),
        }
    }

    /// The payload type.
    pub fn payload_type(&self) -> (pt: u8)
        ensures
            pt == self.number(),
    {
        match self {
            CodecType::Pcmu => 0,
            CodecType::Pcma => 8,
        }
    }

    /// Samples in a second.
    pub fn sample_rate(&self) -> (rate: u32)
        ensures
            rate == 8000,
    {
        8000
    }

    /// Samples in a packet.
    pub fn samples_per_frame(&self, ptime_ms: u32) -> (n: usize)
        requires
            8000 * ptime_ms <= u32::MAX,
        ensures
            n == 8 * ptime_ms,
    {
        (self.sample_rate() * ptime_ms / 1000) as usize
    }

    /// The codec with an upper-case name.
    pub fn from_upper_name(name: &str) -> (r: Option<CodecType>)
        ensures
            r == codec_named(name@),
    {
        if text::same_text(name, "PCMU") || text::same_text(name, "ULAW") || text::same_text(
            name,
            "G711U",
        ) {
            Some(CodecType::Pcmu)
        } else if text::same_text(name, "PCMA") || text::same_text(name, "ALAW")
            || text::same_text(name, "G711A") {
            Some(CodecType::Pcma)
        } else {
            None
        }
    }

    /// The codec with a name, in any case.
    pub fn from_str(s: &str) -> (r: Result<CodecType, RtpSipError>)
        ensures
            match r {
                Ok(c) => codec_named(text::uppercase(s@)) == Some(c),
                Err(e) => codec_named(text::uppercase(s@)) is None && e.is_codec(
                    "Unsupported codec: "@ + s@ + ". Use PCMU or PCMA"@,
                ),
            },
            text::all_ascii(s@) ==> text::uppercase(s@) == Seq::new(
                s@.len(),
                |i: int| text::ascii_upper(s@[i]),
            ),
    {
        let upper = text::to_upper(s);
        match CodecType::from_upper_name(upper.as_str()) {
            Some(c) => Ok(c),
            None => {
                let m = String::from_str("Unsupported codec: ").concat(s).concat(
                    ". Use PCMU or PCMA",
                );
                Err(RtpSipError::Codec(m))
            },
        }
    }

    /// The name in session descriptions.
    pub fn sdp_name(&self) -> (s: &'static str)
        ensures
            s@ == match self {
                CodecType::Pcmu => "PCMU"@,
                CodecType::Pcma => "PCMA"@,
            },
    {
        match self {
            CodecType::Pcmu => "PCMU",
            CodecType::Pcma => "PCMA",
        }
    }
}

/// A codec of one of the two laws.
pub struct G711Codec {
    pub codec_type: CodecType,
}

/// Whether a sample is as good as silent.
pub open spec fn is_quiet(x: i16) -> bool {
    -NEAR_SILENCE_THRESHOLD <= x <= NEAR_SILENCE_THRESHOLD
}

/// How many of the bytes are as good as silent.
pub open spec fn quiet_count(c: CodecType, data: Seq<u8>) -> nat
    decreases data.len(),
{
    if data.len() == 0 {
        0
    } else {
        quiet_count(c, data.drop_last()) + if is_quiet(c.sample(data.last())) {
            1nat
        } else {
            0nat
        }
    }
}

/// The samples that bytes stand for.
pub open spec fn samples_of(c: CodecType, data: Seq<u8>) -> Seq<i16> {
    Seq::new(data.len(), |i: int| c.sample(data[i]))
}

impl G711Codec {
    /// Create a codec.
    pub fn new(codec_type: CodecType) -> (c: G711Codec)
        ensures
            c.codec_type == codec_type,
    {
        G711Codec { codec_type }
    }

    /// The law.
    pub fn codec_type(&self) -> (t: CodecType)
        ensures
            t == self.codec_type,
    {
        self.codec_type
    }

    fn encode_one(&self, x: i16) -> (b: u8)
        ensures
            self.codec_type.is_byte(x, b),
    {
        match self.codec_type {
            CodecType::Pcmu => ulaw_encode(x),
            CodecType::Pcma => alaw_encode(x),
        }
    }

    fn decode_one(&self, b: u8) -> (x: i16)
        ensures
            x == self.codec_type.sample(b),
    {
        match self.codec_type {
            CodecType::Pcmu => ulaw_decode(b),
            CodecType::Pcma => alaw_decode(b),
        }
    }

    /// Encode samples, each to one byte.
    pub fn encode(&self, samples: &[i16]) -> (data: Vec<u8>)
        ensures
            data@.len() == samples@.len(),
            forall|i: int|
                0 <= i < data@.len() ==> self.codec_type.is_byte(samples@[i], #[trigger] data@[i]),
    {
        let mut data: Vec<u8> = Vec::new();
        let mut i: usize = 0;
        while i < samples.len()
            invariant
                i <= samples@.len(),
                data@.len() == i,
                forall|k: int|
                    0 <= k < i ==> self.codec_type.is_byte(samples@[k], #[trigger] data@[k]),
            decreases samples@.len() - i,
        {
            data.push(self.encode_one(samples[i]));
            i += 1;
        }
        data
    }

    /// Decode bytes, each to one sample.
    pub fn decode(&self, data: &[u8]) -> (samples: Vec<i16>)
        ensures
            samples@ == samples_of(self.codec_type, data@),
    {
        let mut samples: Vec<i16> = Vec::new();
        let mut i: usize = 0;
        while i < data.len()
            invariant
                i <= data@.len(),
                samples@.len() == i,
                forall|k: int|
                    0 <= k < i ==> #[trigger] samples@[k] == self.codec_type.sample(data@[k]),
            decreases data@.len() - i,
        {
            samples.push(self.decode_one(data[i]));
            i += 1;
        }
        assert(samples@ =~= samples_of(self.codec_type, data@));
        samples
    }

    /// Whether at least 95 of every 100 bytes are as good as silent.
    pub fn is_silence_frame(&self, data: &[u8]) -> (r: bool)
        ensures
            r == (quiet_count(self.codec_type, data@) * 100 >= data@.len() * 95),
    {
        let n: usize = data.len();
        let mut count: u128 = 0;
        let mut i: usize = 0;
        assert(data@.take(0) =~= Seq::empty());
        while i < n
            invariant
                i <= n == data@.len(),
                count <= i,
                count == quiet_count(self.codec_type, data@.take(i as int)),
            decreases n - i,
        {
            let x: i16 = self.decode_one(data[i]);
            assert(data@.take(i + 1).drop_last() =~= data@.take(i as int));
            if x >= -NEAR_SILENCE_THRESHOLD && x <= NEAR_SILENCE_THRESHOLD {
                count += 1;
            }
            i += 1;
        }
        assert(data@.take(i as int) =~= data@);
        count * 100 >= n as u128 * 95
    }

    /// The byte of silence.
    pub fn silence_byte(&self) -> (b: u8)
        ensures
            b == match self.codec_type {
                CodecType::Pcmu => 0xFFu8,
                CodecType::Pcma => 0xD5u8,
            },
    {
        match self.codec_type {
            CodecType::Pcmu => 0xFF,
            CodecType::Pcma => 0xD5,
        }
    }
}

// ---------------------------------------------------------------------------
// Laws
// ---------------------------------------------------------------------------

/// How far two samples are apart.
pub open spec fn apart(x: i16, y: i16) -> int {
    if x < y {
        y - x
    } else {
        x - y
    }
}

proof fn lemma_ulaw_close(x: i16, b: u8)
    requires
        is_ulaw_byte(x, b),
    ensures
        20 * apart(ulaw_sample(b), x) <= magnitude(x) + 1 + 160,
{
    let v = 255 - b;
    let e = v / 16 % 8;
    let m = v % 16;
    let p = power(e);
    let level = ((2 * m + 33) * p - 33) * 4;
    assert(p == 1 || p == 2 || p == 4 || p == 8 || p == 16 || p == 32 || p == 64 || p == 128);
    lemma_ulaw_level(m, p, magnitude(x));
    if magnitude(x) / 4 + 33 >= 8192 {
        assert(v % 128 == 127);
        assert(e == 7 && m == 15);
    }
    assert(ulaw_sample(b) == if b < 128 {
        -level
    } else {
        level
    });
}

proof fn lemma_ulaw_level(m: int, p: int, size: int)
    requires
        0 <= m < 16,
        p == 1 || p == 2 || p == 4 || p == 8 || p == 16 || p == 32 || p == 64 || p == 128,
        0 <= size <= 32767,
    ensures
        ({
            let level = ((2 * m + 33) * p - 33) * 4;
            let inside = (m + 16) * p * 2 <= size / 4 + 33 < (m + 17) * p * 2;
            let beyond = size / 4 + 33 >= 8192 && m == 15 && p == 128;
            &&& 0 <= level <= 32767
            &&& inside || beyond ==> 20 * (level - size) <= size + 160 && 20 * (size + 1 - level)
                <= size + 161
        }),
{
    let a = m * p;
    assert((2 * m + 33) * p == 2 * a + 33 * p && (m + 16) * p == a + 16 * p && (m + 17) * p == a + 17
        * p && 0 <= a <= 15 * p) by (nonlinear_arith)
        requires
            a == m * p,
            0 <= m < 16,
            p >= 1,
    ;
}

proof fn lemma_alaw_close(x: i16, b: u8)
    requires
        is_alaw_byte(x, b),
    ensures
        20 * apart(alaw_sample(b), x) <= magnitude(x) + 1 + 160,
{
    let v = b ^ 0x55u8;
    let e = (v / 16 % 8) as int;
    let m = (v % 16) as int;
    let level = if e == 0 {
        16 * m + 8
    } else {
        (16 * m + 264) * power(e - 1)
    };
    if e > 0 {
        let q = power(e - 1);
        assert(q == 1 || q == 2 || q == 4 || q == 8 || q == 16 || q == 32 || q == 64);
        assert(power(e) == 2 * q);
        assert((m + 16) * power(e) == (m + 16) * (2 * q));
        assert((m + 17) * power(e) == (m + 17) * (2 * q));
        lemma_alaw_level(m, q, magnitude(x));
    }
    assert(alaw_sample(b) == if v < 128 {
        -level
    } else {
        level
    });
}

proof fn lemma_alaw_level(m: int, q: int, size: int)
    requires
        0 <= m < 16,
        q == 1 || q == 2 || q == 4 || q == 8 || q == 16 || q == 32 || q == 64,
        0 <= size <= 32767,
    ensures
        ({
            let level = (16 * m + 264) * q;
            let inside = (m + 16) * (2 * q) <= size / 8 < (m + 17) * (2 * q);
            &&& 0 <= level <= 32767
            &&& inside ==> 20 * (level - size) <= size + 160 && 20 * (size + 1 - level) <= size + 161
        }),
{
    let a = m * q;
    assert((16 * m + 264) * q == 16 * a + 264 * q && (m + 16) * (2 * q) == 2 * a + 32 * q && (m + 17)
        * (2 * q) == 2 * a + 34 * q && 0 <= a <= 15 * q) by (nonlinear_arith)
        requires
            a == m * q,
            0 <= m < 16,
            q >= 1,
    ;
}

/// A sample comes back from its byte to within a twentieth of its size and
/// eight.
pub proof fn law_encode_close(c: CodecType, x: i16, b: u8)
    requires
        c.is_byte(x, b),
    ensures
        20 * apart(c.sample(b), x) <= magnitude(x) + 1 + 160,
{
    match c {
        CodecType::Pcmu => {
            lemma_ulaw_close(x, b);
        },
        CodecType::Pcma => {
            lemma_alaw_close(x, b);
        },
    }
}

/// A sample has one byte.
pub proof fn law_byte_unique(c: CodecType, x: i16, b1: u8, b2: u8)
    requires
        c.is_byte(x, b1),
        c.is_byte(x, b2),
    ensures
        b1 == b2,
{
    match c {
        CodecType::Pcmu => {
            lemma_same_interval(c, x, (255 - b1) as u8, (255 - b2) as u8);
        },
        CodecType::Pcma => {
            let v1 = b1 ^ 0x55u8;
            let v2 = b2 ^ 0x55u8;
            lemma_same_interval(c, x, v1, v2);
            assert(b1 ^ 0x55u8 == b2 ^ 0x55u8 ==> b1 == b2) by (bit_vector);
        },
    }
}

spec fn in_interval(c: CodecType, x: i16, v: u8) -> bool {
    let e = (v / 16 % 8) as int;
    let m = (v % 16) as int;
    match c {
        CodecType::Pcmu => {
            let level = magnitude(x) / 4 + 33;
            &&& v >= 128 <==> x < 0
            &&& if level >= 8192 {
                v % 128 == 127
            } else {
                (m + 16) * power(e) * 2 <= level < (m + 17) * power(e) * 2
            }
        },
        CodecType::Pcma => {
            let level = magnitude(x) / 8;
            &&& v >= 128 <==> x >= 0
            &&& if e == 0 {
                2 * m <= level < 2 * m + 2
            } else {
                (m + 16) * power(e) <= level < (m + 17) * power(e)
            }
        },
    }
}

/// The exponent that a level calls for.
spec fn exponent_of(level: int, first: int) -> int {
    if level < first * 2 {
        0
    } else if level < first * 4 {
        1
    } else if level < first * 8 {
        2
    } else if level < first * 16 {
        3
    } else if level < first * 32 {
        4
    } else if level < first * 64 {
        5
    } else if level < first * 128 {
        6
    } else {
        7
    }
}

proof fn lemma_exponent(c: CodecType, x: i16, v: u8)
    requires
        in_interval(c, x, v),
    ensures
        c is Pcmu && magnitude(x) / 4 + 33 < 8192 ==> v / 16 % 8 == exponent_of(
            magnitude(x) / 4 + 33,
            32,
        ),
        c is Pcma ==> v / 16 % 8 == exponent_of(magnitude(x) / 8, 16),
{
    let e = (v / 16 % 8) as int;
    assert(0 <= e <= 7);
    if e == 0 {
    } else if e == 1 {
    } else if e == 2 {
    } else if e == 3 {
    } else if e == 4 {
    } else if e == 5 {
    } else if e == 6 {
    } else {
        assert(e == 7);
    }
}

proof fn lemma_same_interval(c: CodecType, x: i16, v1: u8, v2: u8)
    requires
        in_interval(c, x, v1),
        in_interval(c, x, v2),
    ensures
        v1 == v2,
{
    lemma_exponent(c, x, v1);
    lemma_exponent(c, x, v2);
    let e = (v1 / 16 % 8) as int;
    if c is Pcma || magnitude(x) / 4 + 33 < 8192 {
        assert(v1 / 16 % 8 == v2 / 16 % 8);
        let e2 = (v2 / 16 % 8) as int;
        let m1 = (v1 % 16) as int;
        let m2 = (v2 % 16) as int;
        assert(e == e2);
        if c is Pcmu {
            let p = power(e);
            lemma_doubled(m1 + 16, p);
            lemma_doubled(m1 + 17, p);
            lemma_doubled(m2 + 16, p);
            lemma_doubled(m2 + 17, p);
            lemma_mantissa(m1, m2, 2 * p, magnitude(x) / 4 + 33);
        } else if e != 0 {
            lemma_mantissa(m1, m2, power(e), magnitude(x) / 8);
        }
        assert(v1 % 16 == v2 % 16);
    }
}

proof fn lemma_doubled(a: int, p: int)
    by (nonlinear_arith)
    ensures
        a * (2 * p) == a * p * 2,
{
}

proof fn lemma_mantissa(m1: int, m2: int, p: int, level: int)
    by (nonlinear_arith)
    requires
        p > 0,
        (m1 + 16) * p <= level < (m1 + 17) * p,
        (m2 + 16) * p <= level < (m2 + 17) * p,
    ensures
        m1 == m2,
{
}

/// A byte comes back from its sample, but for the mu-law byte of negative zero.
pub proof fn law_decode_encode(c: CodecType, b: u8, again: u8)
    requires
        c.is_byte(c.sample(b), again),
        c is Pcma || b != 127,
    ensures
        again == b,
{
    let v = match c {
        CodecType::Pcmu => (255 - b) as u8,
        CodecType::Pcma => b ^ 0x55u8,
    };
    let e = (v / 16 % 8) as int;
    assert(0 <= e <= 7);
    assert(c.is_byte(c.sample(b), b)) by {
        if e == 0 {
        } else if e == 1 {
        } else if e == 2 {
        } else if e == 3 {
        } else if e == 4 {
        } else if e == 5 {
        } else if e == 6 {
        } else {
            assert(e == 7);
        }
    }
    law_byte_unique(c, c.sample(b), b, again);
}

} // verus!
