//! Remote timestamps brought to a local base, over jumps in the remote ones.

pub mod laws;

use vstd::prelude::*;

verus! {

/// Maps remote timestamps to local ones.
#[derive(Debug, Clone, Copy)]
pub struct TimestampNormalizer {
    /// Local timestamp where the mapping began.
    pub local_base_ts: u32,
    /// Remote timestamp where the mapping began.
    pub remote_base_ts: Option<u32>,
    /// What is added to a remote timestamp.
    pub ts_offset: i64,
    pub last_remote_ts: Option<u32>,
    pub sample_rate: u32,
    pub ptime_ms: u32,
}

/// The local timestamp at an offset.
pub open spec fn shifted(ts: u32, offset: i64) -> u32 {
    ((ts + offset) % 0x1_0000_0000) as u32
}

fn shift(ts: u32, offset: i64) -> (r: u32)
    requires
        -0x1_0000_0000 < offset < 0x1_0000_0000,
    ensures
        r == shifted(ts, offset),
{
    let x: i64 = ts as i64 + offset;
    let y: u64 = (if x < 0 {
        x + 0x1_0000_0000
    } else {
        x
    }) as u64;
    (y % 0x1_0000_0000) as u32
}

impl TimestampNormalizer {
    /// Nothing mapped yet.
    pub open spec fn fresh(sample_rate: u32, ptime_ms: u32) -> TimestampNormalizer {
        TimestampNormalizer {
            local_base_ts: 0,
            remote_base_ts: None,
            ts_offset: 0,
            last_remote_ts: None,
            sample_rate,
            ptime_ms,
        }
    }

    /// The offset is one of two timestamps, and five seconds can be counted.
    pub open spec fn valid(self) -> bool {
        &&& -0x1_0000_0000 < self.ts_offset < 0x1_0000_0000
        &&& self.sample_rate * 5 <= u32::MAX
    }

    /// A packet's samples can be counted.
    pub open spec fn ptime_fits(self) -> bool {
        self.sample_rate * self.ptime_ms <= u32::MAX
    }

    /// Create a normalizer for packets of 20 ms.
    pub fn new(sample_rate: u32) -> (n: TimestampNormalizer)
        ensures
            n == TimestampNormalizer::fresh(sample_rate, 20),
    {
        TimestampNormalizer::with_ptime(sample_rate, 20)
    }

    /// Create a normalizer.
    pub fn with_ptime(sample_rate: u32, ptime_ms: u32) -> (n: TimestampNormalizer)
        ensures
            n == TimestampNormalizer::fresh(sample_rate, ptime_ms),
    {
        TimestampNormalizer {
            local_base_ts: 0,
            remote_base_ts: None,
            ts_offset: 0,
            last_remote_ts: None,
            sample_rate,
            ptime_ms,
        }
    }

    /// Samples of a packet.
    pub open spec fn packet_samples(self) -> u32 {
        (self.sample_rate * self.ptime_ms / 1000) as u32
    }

    /// Samples of a packet.
    pub fn samples_per_packet(&self) -> (n: u32)
        requires
            self.ptime_fits(),
        ensures
            n == self.packet_samples(),
    {
        assert(0 <= self.sample_rate * self.ptime_ms) by (nonlinear_arith)
            requires
                self.sample_rate >= 0,
                self.ptime_ms >= 0,
        ;
        self.sample_rate * self.ptime_ms / 1000
    }

    /// Set how long a packet is.
    pub fn set_ptime(&mut self, ptime_ms: u32)
        ensures
            *final(self) == (TimestampNormalizer { ptime_ms, ..*old(self) }),
    {
        self.ptime_ms = ptime_ms;
    }

    /// Whether a timestamp jumps: back, by less than five seconds, or ahead, by
    /// more.
    pub open spec fn jumps(self, ts: u32) -> bool {
        match (self.remote_base_ts, self.last_remote_ts) {
            (Some(_), Some(last)) => {
                let ahead = ts.wrapping_sub(last);
                let back = last.wrapping_sub(ts);
                let limit = self.sample_rate * 5;
                (back < limit && back < ahead) || ahead > limit
            },
            _ => false,
        }
    }

    /// The normalizer after a timestamp. The first begins a mapping; a jump
    /// begins another, one packet behind the last local timestamp.
    pub open spec fn after(self, ts: u32) -> TimestampNormalizer {
        if self.remote_base_ts is None {
            TimestampNormalizer {
                remote_base_ts: Some(ts),
                ts_offset: (self.local_base_ts - ts) as i64,
                last_remote_ts: Some(ts),
                ..self
            }
        } else if self.jumps(ts) {
            let base = shifted(self.last_remote_ts->Some_0, self.ts_offset).wrapping_add(
                self.packet_samples(),
            );
            TimestampNormalizer {
                local_base_ts: base,
                ts_offset: (base - ts) as i64,
                remote_base_ts: Some(ts),
                last_remote_ts: Some(ts),
                ..self
            }
        } else {
            TimestampNormalizer { last_remote_ts: Some(ts), ..self }
        }
    }

    /// The local timestamp of a remote one.
    pub open spec fn local(self, ts: u32) -> u32 {
        shifted(ts, self.after(ts).ts_offset)
    }

    /// Map a timestamp.
    pub fn normalize(&mut self, remote_ts: u32) -> (r: u32)
        requires
            old(self).valid(),
            old(self).jumps(remote_ts) ==> old(self).ptime_fits(),
        ensures
            *final(self) == old(self).after(remote_ts),
            r == old(self).local(remote_ts),
            final(self).valid(),
    {
        let limit: u32 = self.sample_rate * 5;
        match self.remote_base_ts {
            None => {
                self.remote_base_ts = Some(remote_ts);
                self.ts_offset = self.local_base_ts as i64 - remote_ts as i64;
            },
            Some(_) => {
                if let Some(last) = self.last_remote_ts {
                    let ahead: u32 = remote_ts.wrapping_sub(last);
                    let back: u32 = last.wrapping_sub(remote_ts);
                    if (back < limit && back < ahead) || ahead > limit {
                        let samples: u32 = self.samples_per_packet();
                        self.local_base_ts = shift(last, self.ts_offset).wrapping_add(samples);
                        self.ts_offset = self.local_base_ts as i64 - remote_ts as i64;
                        self.remote_base_ts = Some(remote_ts);
                    }
                }
            },
        }
        self.last_remote_ts = Some(remote_ts);
        shift(remote_ts, self.ts_offset)
    }

    /// Forget the mapping.
    pub fn reset(&mut self)
        ensures
            *final(self) == TimestampNormalizer::fresh(
                old(self).sample_rate,
                old(self).ptime_ms,
            ),
    {
        self.remote_base_ts = None;
        self.ts_offset = 0;
        self.last_remote_ts = None;
        self.local_base_ts = 0;
    }
}

/// The first local timestamp is zero.
pub proof fn law_starts_at_zero(sample_rate: u32, ptime_ms: u32, ts: u32)
    ensures
        TimestampNormalizer::fresh(sample_rate, ptime_ms).local(ts) == 0,
{
}

/// Where the remote timestamps go on, the local ones go on by as much.
pub proof fn law_keeps_spacing(n: TimestampNormalizer, first: u32, second: u32)
    requires
        n.valid(),
        !n.after(first).jumps(second),
    ensures
        n.after(first).local(second).wrapping_sub(n.local(first)) == second.wrapping_sub(first),
{
    let a = n.after(first);
    assert(a.remote_base_ts is Some);
    assert(a.after(second).ts_offset == a.ts_offset);
    lemma_shift(first, second, a.ts_offset);
}

proof fn lemma_shift(a: u32, b: u32, offset: i64)
    requires
        -0x1_0000_0000 < offset < 0x1_0000_0000,
    ensures
        shifted(b, offset).wrapping_sub(shifted(a, offset)) == b.wrapping_sub(a),
{
    let x = a + offset;
    let y = b + offset;
    assert(shifted(a, offset) == x || shifted(a, offset) == x + 0x1_0000_0000 || shifted(a, offset)
        == x - 0x1_0000_0000);
    assert(shifted(b, offset) == y || shifted(b, offset) == y + 0x1_0000_0000 || shifted(b, offset)
        == y - 0x1_0000_0000);
}

/// Over a jump the local timestamps go on by one packet.
pub proof fn law_bridges_jumps(n: TimestampNormalizer, first: u32, second: u32)
    requires
        n.valid(),
        n.ptime_fits(),
        n.after(first).jumps(second),
    ensures
        n.after(first).local(second).wrapping_sub(n.local(first)) == n.packet_samples(),
{
}

} // verus!
