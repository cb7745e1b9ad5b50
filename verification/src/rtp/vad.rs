//! Voice activity detection.
//!
//! A frame is scored by the mean distance of its samples from their running
//! mean, or by loudness and zero crossings; enough loud frames start talking,
//! enough quiet ones stop it. Of interleaved channels only the first counts.

pub mod laws;

use vstd::prelude::*;
use vstd::string::*;

verus! {

/// Where the detector stands.
#[derive(Debug, Clone, Copy, PartialEq, Eq, Structural)]
pub enum VadState {
    /// Silence; named "None".
    Silence,
    /// Talking has just begun; becomes `Talking` at the next frame.
    StartTalking,
    /// Talking.
    Talking,
    /// Talking has just ended; becomes `Silence` at the next frame.
    StopTalking,
}

impl VadState {
    /// The state's name.
    pub fn name(&self) -> (s: &'static str)
        ensures
            s@ == match self {
                VadState::Silence => "None"@,
                VadState::StartTalking => "StartTalking"@,
                VadState::Talking => "Talking"@,
                VadState::StopTalking => "StopTalking"@,
            },
    {
        match self {
            VadState::Silence => "None",
            VadState::StartTalking => "StartTalking",
            VadState::Talking => "Talking",
            VadState::StopTalking => "StopTalking",
        }
    }

    /// Voice is heard.
    pub open spec fn talks(self) -> bool {
        self == VadState::StartTalking || self == VadState::Talking
    }

    /// Whether voice is heard.
    pub fn is_talking(&self) -> (r: bool)
        ensures
            r == self.talks(),
    {
        *self == VadState::StartTalking || *self == VadState::Talking
    }

    /// Whether no voice is heard.
    pub fn is_silent(&self) -> (r: bool)
        ensures
            r == !self.talks(),
    {
        *self == VadState::Silence || *self == VadState::StopTalking
    }

    /// The state after an event that shows only once.
    pub open spec fn settled(self) -> VadState {
        match self {
            VadState::StartTalking => VadState::Talking,
            VadState::StopTalking => VadState::Silence,
            s => s,
        }
    }
}

/// How frames are scored.
#[derive(Debug, Clone, Copy, PartialEq, Eq, Structural)]
pub enum VadMode {
    /// By the mean distance alone.
    Energy,
    /// By loudness and zero crossings, least strict.
    Quality,
    LowBitrate,
    Aggressive,
    /// Most strict.
    VeryAggressive,
}

impl VadMode {
    /// The mode's number, -1 for `Energy`.
    pub fn mode_index(&self) -> (n: i32)
        ensures
            n == match self {
                VadMode::Energy => -1int,
                VadMode::Quality => 0,
                VadMode::LowBitrate => 1,
                VadMode::Aggressive => 2,
                VadMode::VeryAggressive => 3,
            },
    {
        match self {
            VadMode::Energy => -1,
            VadMode::Quality => 0,
            VadMode::LowBitrate => 1,
            VadMode::Aggressive => 2,
            VadMode::VeryAggressive => 3,
        }
    }

    /// Whether zero crossings count.
    pub fn is_webrtc_style(&self) -> (r: bool)
        ensures
            r == (self != VadMode::Energy),
    {
        *self != VadMode::Energy
    }

    /// The least loudness of voice, as a root mean square.
    pub open spec fn least_rms(self) -> int {
        match self {
            VadMode::Energy => 8,
            VadMode::Quality => 8,
            VadMode::LowBitrate => 15,
            VadMode::Aggressive => 30,
            VadMode::VeryAggressive => 60,
        }
    }

    /// The largest share of zero crossings in voice, in twentieths.
    pub open spec fn most_crossings(self) -> int {
        match self {
            VadMode::Energy => 20,
            VadMode::Quality => 16,
            VadMode::LowBitrate => 12,
            VadMode::Aggressive => 9,
            VadMode::VeryAggressive => 7,
        }
    }

    fn limits(&self) -> (r: (u64, u64))
        ensures
            r.0 == self.least_rms(),
            r.1 == self.most_crossings(),
    {
        match self {
            VadMode::Energy => (8, 20),
            VadMode::Quality => (8, 16),
            VadMode::LowBitrate => (15, 12),
            VadMode::Aggressive => (30, 9),
            VadMode::VeryAggressive => (60, 7),
        }
    }
}

// ---------------------------------------------------------------------------
// Frames
// ---------------------------------------------------------------------------

/// The first channel of interleaved samples.
pub open spec fn first_channel(s: Seq<i16>, channels: int) -> Seq<i16> {
    Seq::new((s.len() as int / channels) as nat, |i: int| s[i * channels])
}

/// Division that rounds toward zero.
pub open spec fn trunc_div(a: int, b: int) -> int {
    if a >= 0 {
        a / b
    } else {
        -((-a) / b)
    }
}

fn trunc(a: i128, b: i128) -> (r: i128)
    requires
        b > 0,
        a > i128::MIN,
    ensures
        r == trunc_div(a as int, b as int),
{
    if a >= 0 {
        let q: u128 = a as u128 / b as u128;
        proof {
            lemma_quotient(a as int, b as int);
        }
        q as i128
    } else {
        let q: u128 = (-a) as u128 / b as u128;
        proof {
            lemma_quotient(-a as int, b as int);
        }
        -(q as i128)
    }
}

proof fn lemma_quotient(a: int, b: int)
    by (nonlinear_arith)
    requires
        0 <= a,
        0 < b,
    ensures
        0 <= a / b <= a,
{
}

/// The sum of samples.
pub open spec fn sum_of(s: Seq<i16>) -> int
    decreases s.len(),
{
    if s.len() == 0 {
        0
    } else {
        sum_of(s.drop_last()) + s.last()
    }
}

/// The distance of a sample from a level.
pub open spec fn distance(x: i16, level: int) -> int {
    if x < level {
        level - x
    } else {
        x - level
    }
}

/// The sum of the distances from a level.
pub open spec fn distance_sum(s: Seq<i16>, level: int) -> int
    decreases s.len(),
{
    if s.len() == 0 {
        0
    } else {
        distance_sum(s.drop_last(), level) + distance(s.last(), level)
    }
}

/// The mean distance from a level, zero of no samples.
pub open spec fn mean_distance(s: Seq<i16>, level: int) -> int {
    if s.len() == 0 {
        0
    } else {
        distance_sum(s, level) / (s.len() as int)
    }
}

/// The sum of the squared distances from a level.
pub open spec fn square_sum(s: Seq<i16>, level: int) -> int
    decreases s.len(),
{
    if s.len() == 0 {
        0
    } else {
        square_sum(s.drop_last(), level) + (s.last() - level) * (s.last() - level)
    }
}

/// How often samples change sides of a level.
pub open spec fn crossings(s: Seq<i16>, level: int) -> int
    decreases s.len(),
{
    if s.len() < 2 {
        0
    } else {
        crossings(s.drop_last(), level) + if (s[s.len() - 1] >= level) != (s[s.len() - 2]
            >= level) {
            1int
        } else {
            0int
        }
    }
}

/// Whether a frame is loud enough, and crosses its mean seldom enough, to be
/// voice.
pub open spec fn is_voice(s: Seq<i16>, level: int, mode: VadMode) -> bool {
    &&& s.len() >= 2
    &&& square_sum(s, level) >= mode.least_rms() * mode.least_rms() * s.len()
    &&& 20 * crossings(s, level) <= mode.most_crossings() * (s.len() - 1)
}

fn channel_sample(samples: &[i16], channels: usize, i: usize) -> (x: i16)
    requires
        channels > 0,
        i < first_channel(samples@, channels as int).len(),
    ensures
        x == first_channel(samples@, channels as int)[i as int],
{
    let n: usize = samples.len();
    proof {
        lemma_stride(n as int, channels as int, i as int);
    }
    samples[i * channels]
}

proof fn lemma_stride(n: int, channels: int, i: int)
    by (nonlinear_arith)
    requires
        channels > 0,
        0 <= i < n / channels,
    ensures
        0 <= i * channels < n,
{
    assert(n / channels * channels <= n);
    assert((i + 1) * channels <= n / channels * channels);
}

proof fn lemma_channel_len(s: Seq<i16>, channels: int)
    requires
        channels > 0,
    ensures
        first_channel(s, channels).len() == s.len() as int / channels,
        first_channel(s, channels).len() <= s.len(),
{
    lemma_quotient(s.len() as int, channels);
}

fn sum_channel(samples: &[i16], channels: usize, n: usize) -> (sum: i128)
    requires
        channels > 0,
        n == first_channel(samples@, channels as int).len(),
    ensures
        sum == sum_of(first_channel(samples@, channels as int)),
        -32768 * n <= sum <= 32768 * n,
{
    let ghost c = first_channel(samples@, channels as int);
    proof {
        lemma_channel_len(samples@, channels as int);
    }
    let mut sum: i128 = 0;
    let mut i: usize = 0;
    assert(c.take(0) =~= Seq::empty());
    while i < n
        invariant
            i <= n,
            channels > 0,
            c == first_channel(samples@, channels as int),
            n == c.len(),
            sum == sum_of(c.take(i as int)),
            -32768 * i <= sum <= 32768 * i,
        decreases n - i,
    {
        let x: i16 = channel_sample(samples, channels, i);
        assert(c.take(i + 1).drop_last() =~= c.take(i as int));
        sum += x as i128;
        i += 1;
    }
    assert(c.take(n as int) =~= c);
    sum
}

proof fn lemma_mean_bound(sum: int, n: int, bound: int)
    by (nonlinear_arith)
    requires
        0 <= sum <= bound * n,
        0 < n,
        0 <= bound,
    ensures
        0 <= sum / n <= bound,
{
}

fn mean_distance_of(samples: &[i16], channels: usize, level: i32) -> (mean: u32)
    requires
        channels > 0,
        -32768 <= level <= 32768,
    ensures
        mean == mean_distance(first_channel(samples@, channels as int), level as int),
{
    let ghost c = first_channel(samples@, channels as int);
    proof {
        lemma_channel_len(samples@, channels as int);
    }
    let n: usize = samples.len() / channels;
    if n == 0 {
        return 0;
    }
    let mut sum: u128 = 0;
    let mut i: usize = 0;
    assert(c.take(0) =~= Seq::empty());
    while i < n
        invariant
            i <= n,
            channels > 0,
            c == first_channel(samples@, channels as int),
            n == c.len(),
            -32768 <= level <= 32768,
            sum == distance_sum(c.take(i as int), level as int),
            0 <= sum <= 65536 * i,
        decreases n - i,
    {
        let x: i32 = channel_sample(samples, channels, i) as i32;
        assert(c.take(i + 1).drop_last() =~= c.take(i as int));
        let d: i32 = if x < level {
            level - x
        } else {
            x - level
        };
        sum += d as u128;
        i += 1;
    }
    assert(c.take(n as int) =~= c);
    proof {
        lemma_mean_bound(sum as int, n as int, 65536);
    }
    (sum / n as u128) as u32
}

/// The mean size of the samples of the first channel.
pub fn compute_mean_abs_multichannel(samples: &[i16], _divisor: u32, channels: u32) -> (mean: u32)
    requires
    ensures
        mean == mean_distance(
            first_channel(
                samples@,
                if channels < 1 {
                    1
                } else {
                    channels as int
                },
            ),
            0,
        ),
{
    let channels: usize = if channels < 1 {
        1
    } else {
        channels as usize
    };
    mean_distance_of(samples, channels, 0)
}

/// The mean size of the samples.
pub fn compute_mean_abs(samples: &[i16], divisor: u32) -> (mean: u32)
    requires
    ensures
        mean == mean_distance(samples@, 0),
{
    assert(first_channel(samples@, 1) =~= samples@);
    compute_mean_abs_multichannel(samples, divisor, 1)
}

proof fn lemma_square(d: int)
    by (nonlinear_arith)
    requires
        -65536 <= d <= 65536,
    ensures
        0 <= d * d <= 0x1_0000_0000,
{
}

/// Whether the first channel of a frame is voice.
fn voice_frame(samples: &[i16], channels: usize, level: i32, mode: VadMode) -> (r: bool)
    requires
        channels > 0,
        -32768 <= level <= 32768,
    ensures
        r == is_voice(first_channel(samples@, channels as int), level as int, mode),
{
    let ghost c = first_channel(samples@, channels as int);
    proof {
        lemma_channel_len(samples@, channels as int);
    }
    let n: usize = samples.len() / channels;
    if n < 2 {
        return false;
    }
    let mut squares: u128 = 0;
    let mut crossed: u128 = 0;
    let mut above: bool = channel_sample(samples, channels, 0) as i32 >= level;
    let mut i: usize = 0;
    assert(c.take(0) =~= Seq::empty());
    while i < n
        invariant
            i <= n,
            channels > 0,
            2 <= n,
            c == first_channel(samples@, channels as int),
            n == c.len(),
            -32768 <= level <= 32768,
            above == (c[if i == 0 {
                0int
            } else {
                i - 1
            }] >= level),
            squares == square_sum(c.take(i as int), level as int),
            0 <= squares <= 0x1_0000_0000 * i,
            crossed == crossings(c.take(i as int), level as int),
            crossed <= i,
        decreases n - i,
    {
        let x: i64 = channel_sample(samples, channels, i) as i64;
        assert(c.take(i + 1).drop_last() =~= c.take(i as int));
        let d: i64 = x - level as i64;
        proof {
            lemma_square(d as int);
        }
        squares += (d * d) as u128;
        let side: bool = d >= 0;
        if side != above {
            crossed += 1;
        }
        above = side;
        i += 1;
    }
    assert(c.take(n as int) =~= c);
    let (least, most) = mode.limits();
    proof {
        assert(least * least <= 3600) by (nonlinear_arith)
            requires
                least <= 60,
        ;
        assert(least * least * n <= 3600 * n) by (nonlinear_arith)
            requires
                0 <= least * least <= 3600,
                0 <= n,
        ;
        assert(0 <= most * (n - 1) <= 20 * n) by (nonlinear_arith)
            requires
                0 <= most <= 20,
                2 <= n,
        ;
    }
    squares >= (least * least) as u128 * n as u128 && 20 * crossed <= most as u128 * (n as u128 - 1)
}

fn add_count(count: u32, n: usize) -> (r: u32)
    ensures
        r == VoiceActivityDetector::added(count, n as int),
{
    if n as u64 > (u32::MAX - count) as u64 {
        u32::MAX
    } else {
        count + n as u32
    }
}

// ---------------------------------------------------------------------------
// The detector
// ---------------------------------------------------------------------------

/// Detects voice in frames of samples.
pub struct VoiceActivityDetector {
    pub threshold: u32,
    pub sample_rate: u32,
    /// The sample rate in multiples of 8000, rounded.
    pub divisor: u32,
    pub channels: u32,
    /// Samples of voice before talking starts.
    pub voice_onset_samples: u32,
    /// Samples of silence before talking stops.
    pub silence_holdoff_samples: u32,
    pub voice_sample_count: u32,
    pub silence_sample_count: u32,
    pub state: VadState,
    /// The mean size of the samples of the last frame.
    pub last_energy: u32,
    pub mode: VadMode,
    /// The running mean of the samples, times 256.
    pub dc_estimate: i64,
}

/// A sample rate, at least 8000.
pub open spec fn usable_rate(rate: u32) -> u32 {
    if rate < 8000 {
        8000
    } else {
        rate
    }
}

impl VoiceActivityDetector {
    /// There is a channel, and the running mean is one of samples.
    pub open spec fn valid(self) -> bool {
        self.channels >= 1 && -0x80_0000 <= self.dc_estimate <= 0x80_0000
    }

    /// A detector that has heard nothing.
    pub open spec fn configured(
        sample_rate: u32,
        threshold: u32,
        onset_ms: u32,
        holdoff_ms: u32,
    ) -> VoiceActivityDetector {
        let rate = usable_rate(sample_rate);
        VoiceActivityDetector {
            threshold,
            sample_rate: rate,
            divisor: ((rate + 4000) / 8000) as u32,
            channels: 1,
            voice_onset_samples: (rate * onset_ms / 1000) as u32,
            silence_holdoff_samples: (rate * holdoff_ms / 1000) as u32,
            voice_sample_count: 0,
            silence_sample_count: 0,
            state: VadState::Silence,
            last_energy: 0,
            mode: VadMode::Energy,
            dc_estimate: 0,
        }
    }

    /// Create a detector with a threshold of 100, 200 ms of onset and 500 ms of
    /// holdoff.
    pub fn new(sample_rate: u32) -> (v: VoiceActivityDetector)
        requires
            usable_rate(sample_rate) * 500 <= u32::MAX,
        ensures
            v == VoiceActivityDetector::configured(sample_rate, 100, 200, 500),
            v.valid(),
    {
        VoiceActivityDetector::with_config(sample_rate, 100, 200, 500)
    }

    /// Create a detector.
    pub fn with_config(
        sample_rate: u32,
        threshold: u32,
        voice_onset_ms: u32,
        silence_holdoff_ms: u32,
    ) -> (v: VoiceActivityDetector)
        requires
            usable_rate(sample_rate) + 4000 <= u32::MAX,
            usable_rate(sample_rate) * voice_onset_ms <= u32::MAX,
            usable_rate(sample_rate) * silence_holdoff_ms <= u32::MAX,
        ensures
            v == VoiceActivityDetector::configured(
                sample_rate,
                threshold,
                voice_onset_ms,
                silence_holdoff_ms,
            ),
            v.valid(),
    {
        let rate: u32 = if sample_rate < 8000 {
            8000
        } else {
            sample_rate
        };
        VoiceActivityDetector {
            threshold,
            sample_rate: rate,
            divisor: (rate + 4000) / 8000,
            channels: 1,
            voice_onset_samples: VoiceActivityDetector::ms_samples(rate, voice_onset_ms),
            silence_holdoff_samples: VoiceActivityDetector::ms_samples(rate, silence_holdoff_ms),
            voice_sample_count: 0,
            silence_sample_count: 0,
            state: VadState::Silence,
            last_energy: 0,
            mode: VadMode::Energy,
            dc_estimate: 0,
        }
    }

    fn ms_samples(rate: u32, ms: u32) -> (n: u32)
        requires
            rate * ms <= u32::MAX,
        ensures
            n == rate * ms / 1000,
    {
        assert(0 <= rate * ms) by (nonlinear_arith)
            requires
                rate >= 0,
                ms >= 0,
        ;
        rate * ms / 1000
    }

    /// Set the number of channels, at least one.
    pub fn set_channels(&mut self, channels: u32)
        ensures
            *final(self) == (VoiceActivityDetector {
                channels: if channels < 1 {
                    1
                } else {
                    channels
                },
                ..*old(self)
            }),
    {
        self.channels = if channels < 1 {
            1
        } else {
            channels
        };
    }

    /// The number of channels.
    pub fn channels(&self) -> (n: u32)
        ensures
            n == self.channels,
    {
        self.channels
    }

    /// Set the mode.
    pub fn set_mode(&mut self, mode: VadMode)
        ensures
            *final(self) == (VoiceActivityDetector { mode, ..*old(self) }),
    {
        self.mode = mode;
    }

    /// The mode.
    pub fn mode(&self) -> (m: VadMode)
        ensures
            m == self.mode,
    {
        self.mode
    }

    /// Set the threshold.
    pub fn set_threshold(&mut self, threshold: u32)
        ensures
            *final(self) == (VoiceActivityDetector { threshold, ..*old(self) }),
    {
        self.threshold = threshold;
    }

    /// The threshold.
    pub fn threshold(&self) -> (t: u32)
        ensures
            t == self.threshold,
    {
        self.threshold
    }

    /// Set how long voice lasts before talking starts.
    pub fn set_voice_onset_ms(&mut self, ms: u32)
        requires
            old(self).sample_rate * ms <= u32::MAX,
        ensures
            *final(self) == (VoiceActivityDetector {
                voice_onset_samples: (old(self).sample_rate * ms / 1000) as u32,
                ..*old(self)
            }),
    {
        self.voice_onset_samples = VoiceActivityDetector::ms_samples(self.sample_rate, ms);
    }

    /// Set how long silence lasts before talking stops.
    pub fn set_silence_holdoff_ms(&mut self, ms: u32)
        requires
            old(self).sample_rate * ms <= u32::MAX,
        ensures
            *final(self) == (VoiceActivityDetector {
                silence_holdoff_samples: (old(self).sample_rate * ms / 1000) as u32,
                ..*old(self)
            }),
    {
        self.silence_holdoff_samples = VoiceActivityDetector::ms_samples(self.sample_rate, ms);
    }

    /// The sample rate.
    pub fn sample_rate(&self) -> (rate: u32)
        ensures
            rate == self.sample_rate,
    {
        self.sample_rate
    }

    /// The first channel of a frame.
    pub open spec fn channel_of(self, samples: Seq<i16>) -> Seq<i16> {
        first_channel(samples, self.channels as int)
    }

    /// The running mean after a frame: a 256th of it gives way to the frame's.
    pub open spec fn next_dc(self, samples: Seq<i16>) -> int {
        let c = self.channel_of(samples);
        if c.len() == 0 {
            self.dc_estimate as int
        } else {
            trunc_div(self.dc_estimate * 255, 256) + trunc_div(sum_of(c), c.len() as int)
        }
    }

    /// The score of a frame, given the mean of the samples.
    pub open spec fn score(self, samples: Seq<i16>, level: int) -> u32 {
        let c = self.channel_of(samples);
        if self.mode == VadMode::Energy {
            mean_distance(c, level) as u32
        } else if !is_voice(c, level, self.mode) {
            0
        } else if self.threshold > u32::MAX - 100 {
            u32::MAX
        } else {
            (self.threshold + 100) as u32
        }
    }

    /// A number of samples added to a count, up to its range.
    pub open spec fn added(count: u32, n: int) -> u32 {
        if count + n > u32::MAX {
            u32::MAX
        } else {
            (count + n) as u32
        }
    }

    /// The detector after so many samples of voice.
    pub open spec fn heard_voice(self, n: int) -> VoiceActivityDetector {
        let count = VoiceActivityDetector::added(self.voice_sample_count, n);
        VoiceActivityDetector {
            silence_sample_count: 0,
            voice_sample_count: count,
            state: if self.state == VadState::Silence && count > self.voice_onset_samples {
                VadState::StartTalking
            } else {
                self.state
            },
            ..self
        }
    }

    /// The detector after so many samples of silence.
    pub open spec fn heard_silence(self, n: int) -> VoiceActivityDetector {
        let count = VoiceActivityDetector::added(self.silence_sample_count, n);
        VoiceActivityDetector {
            silence_sample_count: count,
            voice_sample_count: 0,
            state: if self.state == VadState::Talking && count > self.silence_holdoff_samples {
                VadState::StopTalking
            } else {
                self.state
            },
            ..self
        }
    }

    /// The detector after a frame. An empty one is silence.
    pub open spec fn processed(self, samples: Seq<i16>) -> VoiceActivityDetector {
        let a = VoiceActivityDetector { state: self.state.settled(), ..self };
        if samples.len() == 0 {
            VoiceActivityDetector { last_energy: 0, ..a }.heard_silence(0)
        } else {
            let dc = self.next_dc(samples);
            let score = self.score(samples, trunc_div(dc, 256));
            let c = self.channel_of(samples);
            let b = VoiceActivityDetector {
                dc_estimate: dc as i64,
                last_energy: mean_distance(c, 0) as u32,
                ..a
            };
            let n = c.len() as int;
            if score > self.threshold {
                b.heard_voice(n)
            } else {
                b.heard_silence(n)
            }
        }
    }

    fn track_dc(&mut self, samples: &[i16], n: usize)
        requires
            old(self).valid(),
            n == old(self).channel_of(samples@).len(),
        ensures
            *final(self) == (VoiceActivityDetector {
                dc_estimate: old(self).next_dc(samples@) as i64,
                ..*old(self)
            }),
            final(self).valid(),
            final(self).dc_estimate == old(self).next_dc(samples@),
    {
        if n > 0 {
            let sum: i128 = sum_channel(samples, self.channels as usize, n);
            let mean: i128 = trunc(sum, n as i128);
            proof {
                if sum >= 0 {
                    lemma_mean_bound(sum as int, n as int, 32768);
                } else {
                    lemma_mean_bound(-sum as int, n as int, 32768);
                }
            }
            self.dc_estimate = (trunc(self.dc_estimate as i128 * 255, 256) + mean) as i64;
        }
    }

    fn process_voice(&mut self, n: usize) -> (state: VadState)
        ensures
            *final(self) == old(self).heard_voice(n as int),
            state == final(self).state,
    {
        self.silence_sample_count = 0;
        self.voice_sample_count = add_count(self.voice_sample_count, n);
        if self.state == VadState::Silence && self.voice_sample_count > self.voice_onset_samples {
            self.state = VadState::StartTalking;
        }
        self.state
    }

    fn process_silence(&mut self, n: usize) -> (state: VadState)
        ensures
            *final(self) == old(self).heard_silence(n as int),
            state == final(self).state,
    {
        self.silence_sample_count = add_count(self.silence_sample_count, n);
        self.voice_sample_count = 0;
        if self.state == VadState::Talking && self.silence_sample_count
            > self.silence_holdoff_samples {
            self.state = VadState::StopTalking;
        }
        self.state
    }

    fn frame_score(&self, samples: &[i16], level: i32) -> (score: u32)
        requires
            self.valid(),
            -32768 <= level <= 32768,
        ensures
            score == self.score(samples@, level as int),
    {
        if self.mode.is_webrtc_style() {
            if voice_frame(samples, self.channels as usize, level, self.mode) {
                self.threshold.saturating_add(100)
            } else {
                0
            }
        } else {
            mean_distance_of(samples, self.channels as usize, level)
        }
    }

    /// Take in a frame, and give the state after it.
    pub fn process(&mut self, samples: &[i16]) -> (state: VadState)
        requires
            old(self).valid(),
        ensures
            *final(self) == old(self).processed(samples@),
            state == final(self).state,
            final(self).valid(),
    {
        match self.state {
            VadState::StartTalking => {
                self.state = VadState::Talking;
            },
            VadState::StopTalking => {
                self.state = VadState::Silence;
            },
            _ => {},
        }
        if samples.len() == 0 {
            self.last_energy = 0;
            return self.process_silence(0);
        }
        proof {
            lemma_channel_len(samples@, self.channels as int);
        }
        let n: usize = samples.len() / self.channels as usize;
        self.track_dc(samples, n);
        let level: i32 = trunc(self.dc_estimate as i128, 256) as i32;
        let score: u32 = self.frame_score(samples, level);
        self.last_energy = mean_distance_of(samples, self.channels as usize, 0);
        if score > self.threshold {
            self.process_voice(n)
        } else {
            self.process_silence(n)
        }
    }

    /// The state.
    pub fn state(&self) -> (s: VadState)
        ensures
            s == self.state,
    {
        self.state
    }

    /// Whether no voice is heard.
    pub fn is_silent(&self) -> (r: bool)
        ensures
            r == !self.state.talks(),
    {
        self.state.is_silent()
    }

    /// Whether voice is heard.
    pub fn is_talking(&self) -> (r: bool)
        ensures
            r == self.state.talks(),
    {
        self.state.is_talking()
    }

    /// The mean size of the samples of the last frame.
    pub fn last_energy(&self) -> (e: u32)
        ensures
            e == self.last_energy,
    {
        self.last_energy
    }

    /// Forget what was heard; the settings stay.
    pub fn reset(&mut self)
        ensures
            *final(self) == (VoiceActivityDetector {
                voice_sample_count: 0,
                silence_sample_count: 0,
                state: VadState::Silence,
                last_energy: 0,
                dc_estimate: 0,
                ..*old(self)
            }),
    {
        self.voice_sample_count = 0;
        self.silence_sample_count = 0;
        self.state = VadState::Silence;
        self.last_energy = 0;
        self.dc_estimate = 0;
    }
}

impl Default for VoiceActivityDetector {
    fn default() -> (v: VoiceActivityDetector)
        ensures
            v == VoiceActivityDetector::configured(8000, 100, 200, 500),
            v.valid(),
    {
        VoiceActivityDetector::new(8000)
    }
}

// ---------------------------------------------------------------------------
// Laws
// ---------------------------------------------------------------------------

/// The events show only once, and the states follow each other in a circle.
pub proof fn law_state_circle(v: VoiceActivityDetector, samples: Seq<i16>)
    ensures
        ({
            let next = v.processed(samples).state;
            &&& v.state == VadState::StartTalking ==> next != VadState::StartTalking
            &&& v.state == VadState::StopTalking ==> next != VadState::StopTalking
            &&& !v.state.talks() ==> next == VadState::Silence || next == VadState::StartTalking
            &&& v.state.talks() ==> next == VadState::Talking || next == VadState::StopTalking
        }),
{
}

/// The states in which frames, one after the other, leave a detector.
pub open spec fn states(v: VoiceActivityDetector, frames: Seq<Seq<i16>>) -> Seq<VadState>
    decreases frames.len(),
{
    if frames.len() == 0 {
        Seq::empty()
    } else {
        states(v, frames.drop_last()).push(heard(v, frames).state)
    }
}

/// The detector after frames.
pub open spec fn heard(v: VoiceActivityDetector, frames: Seq<Seq<i16>>) -> VoiceActivityDetector
    decreases frames.len(),
{
    if frames.len() == 0 {
        v
    } else {
        heard(v, frames.drop_last()).processed(frames.last())
    }
}

/// Whatever frames come, talking stops between two starts, and starts between
/// two stops, so the two alternate.
pub proof fn law_starts_and_stops_alternate(
    v: VoiceActivityDetector,
    frames: Seq<Seq<i16>>,
    i: int,
    j: int,
)
    requires
        0 <= i < j < frames.len(),
    ensures
        ({
            let s = states(v, frames);
            &&& s.len() == frames.len()
            &&& s[i] == VadState::StartTalking && s[j] == VadState::StartTalking ==> exists|k: int|
                i < k < j && #[trigger] s[k] == VadState::StopTalking
            &&& s[i] == VadState::StopTalking && s[j] == VadState::StopTalking ==> exists|k: int|
                i < k < j && #[trigger] s[k] == VadState::StartTalking
        }),
{
    let s = states(v, frames);
    lemma_states(v, frames);
    if s[i] == VadState::StartTalking && s[j] == VadState::StartTalking {
        if forall|k: int| i < k < j ==> #[trigger] s[k] != VadState::StopTalking {
            lemma_talks_on(v, frames, i, j - 1);
            assert(s[j - 1].talks());
            lemma_follows(s, j - 1);
        }
    }
    if s[i] == VadState::StopTalking && s[j] == VadState::StopTalking {
        if forall|k: int| i < k < j ==> #[trigger] s[k] != VadState::StartTalking {
            lemma_silent_on(v, frames, i, j - 1);
            assert(!s[j - 1].talks());
            lemma_follows(s, j - 1);
        }
    }
}

/// States that follow each other in the circle.
spec fn circles(s: Seq<VadState>) -> bool {
    forall|k: int| #![trigger follows_at(s, k)] 0 <= k < s.len() - 1 ==> follows_at(s, k)
}

spec fn follows_at(s: Seq<VadState>, k: int) -> bool {
    if s[k].talks() {
        s[k + 1] == VadState::Talking || s[k + 1] == VadState::StopTalking
    } else {
        s[k + 1] == VadState::Silence || s[k + 1] == VadState::StartTalking
    }
}

proof fn lemma_follows(s: Seq<VadState>, k: int)
    requires
        circles(s),
        0 <= k < s.len() - 1,
    ensures
        follows_at(s, k),
{
}

proof fn lemma_states(v: VoiceActivityDetector, frames: Seq<Seq<i16>>)
    ensures
        states(v, frames).len() == frames.len(),
        frames.len() > 0 ==> states(v, frames).last() == heard(v, frames).state,
        circles(states(v, frames)),
    decreases frames.len(),
{
    if frames.len() > 0 {
        let before = states(v, frames.drop_last());
        let s = states(v, frames);
        lemma_states(v, frames.drop_last());
        law_state_circle(heard(v, frames.drop_last()), frames.last());
        assert forall|k: int| #![trigger follows_at(s, k)] 0 <= k < s.len() - 1 implies follows_at(
            s,
            k,
        ) by {
            assert(s[k] == before[k]);
            if k + 1 < before.len() {
                assert(follows_at(before, k));
                assert(s[k + 1] == before[k + 1]);
            }
        }
    }
}

proof fn lemma_talks_on(v: VoiceActivityDetector, frames: Seq<Seq<i16>>, i: int, j: int)
    requires
        0 <= i <= j < frames.len(),
        states(v, frames)[i] == VadState::StartTalking,
        forall|k: int| i < k <= j ==> #[trigger] states(v, frames)[k] != VadState::StopTalking,
    ensures
        states(v, frames)[j].talks(),
    decreases j - i,
{
    lemma_states(v, frames);
    if i < j {
        lemma_talks_on(v, frames, i, j - 1);
        lemma_follows(states(v, frames), j - 1);
    }
}

proof fn lemma_silent_on(v: VoiceActivityDetector, frames: Seq<Seq<i16>>, i: int, j: int)
    requires
        0 <= i <= j < frames.len(),
        states(v, frames)[i] == VadState::StopTalking,
        forall|k: int| i < k <= j ==> #[trigger] states(v, frames)[k] != VadState::StartTalking,
    ensures
        !states(v, frames)[j].talks(),
    decreases j - i,
{
    lemma_states(v, frames);
    if i < j {
        lemma_silent_on(v, frames, i, j - 1);
        lemma_follows(states(v, frames), j - 1);
    }
}

/// Talking starts only when voice has lasted longer than the onset, and stops
/// only when silence has lasted longer than the holdoff.
pub proof fn law_events_wait(v: VoiceActivityDetector, samples: Seq<i16>)
    ensures
        ({
            let next = v.processed(samples);
            &&& next.state == VadState::StartTalking ==> next.voice_sample_count
                > next.voice_onset_samples
            &&& next.state == VadState::StopTalking ==> next.silence_sample_count
                > next.silence_holdoff_samples
            &&& next.voice_sample_count == 0 || next.silence_sample_count == 0
        }),
{
}

/// Only the first channel counts.
pub proof fn law_other_channels_ignored(
    v: VoiceActivityDetector,
    s1: Seq<i16>,
    s2: Seq<i16>,
)
    requires
        s1.len() > 0,
        s2.len() > 0,
        v.channel_of(s1) == v.channel_of(s2),
    ensures
        v.processed(s1) == v.processed(s2),
{
}

} // verus!
