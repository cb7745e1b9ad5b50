//! What bytes of audio stand for.

use crate::rtp::codec;
use crate::rtp::codec::CodecType;
use vstd::prelude::*;

verus! {

/// The payload types of the two laws.
pub proof fn law_payload_types(c: CodecType)
    ensures
        c is Pcmu ==> c.number() == 0,
        c is Pcma ==> c.number() == 8,
{
}

/// A codec has three names, and no name is that of both.
pub proof fn law_names(s: Seq<char>)
    ensures
        s == "PCMU"@ || s == "ULAW"@ || s == "G711U"@ ==> codec::codec_named(s) == Some(
            CodecType::Pcmu,
        ),
        s == "PCMA"@ || s == "ALAW"@ || s == "G711A"@ ==> codec::codec_named(s) == Some(
            CodecType::Pcma,
        ),
        codec::codec_named(s) is Some ==> s.len() == 4 || s.len() == 5,
{
    reveal_strlit("PCMU");
    reveal_strlit("ULAW");
    reveal_strlit("G711U");
    reveal_strlit("PCMA");
    reveal_strlit("ALAW");
    reveal_strlit("G711A");
    assert("PCMU"@[3] == 'U' && "PCMA"@[3] == 'A');
    assert("ULAW"@[0] == 'U' && "ALAW"@[0] == 'A');
    assert("G711U"@[4] == 'U' && "G711A"@[4] == 'A');
    assert("PCMA"@[0] == 'P' && "PCMU"@[0] == 'P');
}

/// A sample is as good as silent up to eight steps from zero, on both sides.
pub proof fn law_near_silence(x: i16)
    ensures
        codec::is_quiet(x) <==> -8 <= x <= 8,
{
}

/// Silent bytes are counted one by one.
pub proof fn law_silence_counted(c: CodecType, data: Seq<u8>, b: u8)
    ensures
        codec::quiet_count(c, Seq::empty()) == 0,
        -8 <= c.sample(b) <= 8 ==> codec::quiet_count(c, data.push(b)) == codec::quiet_count(
            c,
            data,
        ) + 1,
        !(-8 <= c.sample(b) <= 8) ==> codec::quiet_count(c, data.push(b)) == codec::quiet_count(
            c,
            data,
        ),
{
    assert(data.push(b).drop_last() =~= data);
}

/// Each byte stands for one sample, in the order of the bytes.
pub proof fn law_samples_in_order(c: CodecType, a: Seq<u8>, b: u8)
    ensures
        codec::samples_of(c, a.push(b)) == codec::samples_of(c, a).push(c.sample(b)),
        codec::samples_of(c, a).len() == a.len(),
{
    assert(codec::samples_of(c, a.push(b)) =~= codec::samples_of(c, a).push(c.sample(b)));
}

} // verus!
