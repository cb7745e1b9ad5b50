//! When remote timestamps jump.

use crate::rtp::engine::normalizer;
use crate::rtp::engine::normalizer::TimestampNormalizer;
use vstd::prelude::*;

verus! {

/// A timestamp jumps if it goes back, or ahead by more than five seconds. The
/// moments are less than half the range of timestamps apart.
pub proof fn law_what_jumps(n: TimestampNormalizer, p: int, q: int)
    requires
        n.valid(),
        n.sample_rate * 5 < 0x8000_0000,
        n.remote_base_ts is Some,
        n.last_remote_ts == Some((p % 0x1_0000_0000) as u32),
        -0x8000_0000 < q - p < 0x8000_0000,
    ensures
        n.sample_rate > 0 ==> (n.jumps((q % 0x1_0000_0000) as u32) <==> q < p || q - p > 5
            * n.sample_rate),
{
    let last = (p % 0x1_0000_0000) as u32;
    let ts = (q % 0x1_0000_0000) as u32;
    let ahead = ts.wrapping_sub(last);
    let back = last.wrapping_sub(ts);
    lemma_apart(p, q);
    if q >= p {
        assert(ahead == q - p);
    } else {
        assert(back == p - q);
        assert(ahead == 0x1_0000_0000 - (p - q));
    }
}

proof fn lemma_apart(p: int, q: int)
    requires
        -0x8000_0000 < q - p < 0x8000_0000,
    ensures
        ({
            let a = p % 0x1_0000_0000;
            let b = q % 0x1_0000_0000;
            b - a == q - p || b - a == q - p + 0x1_0000_0000 || b - a == q - p - 0x1_0000_0000
        }),
{
}

/// A packet has as many samples as its time at the rate, in whole ones.
pub proof fn law_packet_samples(n: TimestampNormalizer)
    requires
        n.ptime_fits(),
    ensures
        n.packet_samples() * 1000 <= n.sample_rate * n.ptime_ms,
        (n.packet_samples() + 1) * 1000 > n.sample_rate * n.ptime_ms,
{
    let x = n.sample_rate * n.ptime_ms;
    assert(x >= 0) by (nonlinear_arith)
        requires
            x == n.sample_rate * n.ptime_ms,
            n.sample_rate >= 0,
            n.ptime_ms >= 0,
    ;
}

/// The mapping adds the same to every timestamp, around at the end of the range.
pub proof fn law_shifted(ts: u32, offset: i64)
    requires
        -0x1_0000_0000 < offset < 0x1_0000_0000,
    ensures
        ({
            let d = normalizer::shifted(ts, offset) - (ts + offset);
            d == 0 || d == 0x1_0000_0000 || d == -0x1_0000_0000
        }),
{
}

} // verus!
