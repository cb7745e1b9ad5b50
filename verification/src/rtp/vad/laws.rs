//! What counts as voice and what as silence.

use crate::rtp::vad;
use crate::rtp::vad::{VadMode, VadState, VoiceActivityDetector};
use vstd::prelude::*;

verus! {

/// Whether neighbours lie on different sides of a level.
pub open spec fn changes_side(s: Seq<i16>, level: int, i: int) -> bool {
    (s[i] >= level) != (s[i + 1] >= level)
}

/// How many of the neighbouring pairs lie on different sides of a level.
pub open spec fn pairs_apart(s: Seq<i16>, level: int) -> nat {
    Seq::new((s.len() - 1) as nat, |i: int| changes_side(s, level, i)).filter(|b: bool| b).len()
}

proof fn lemma_crossings(s: Seq<i16>, level: int)
    requires
        s.len() >= 1,
    ensures
        vad::crossings(s, level) == pairs_apart(s, level),
    decreases s.len(),
{
    let n = (s.len() - 1) as nat;
    let pairs = Seq::new(n, |i: int| changes_side(s, level, i));
    let f = |b: bool| b;
    reveal(Seq::filter);
    if s.len() == 1 {
        assert(pairs.filter(f) =~= Seq::<bool>::empty());
    } else {
        let t = s.drop_last();
        lemma_crossings(t, level);
        let fewer = Seq::new((t.len() - 1) as nat, |i: int| changes_side(t, level, i));
        assert(pairs.drop_last() =~= fewer);
        assert(pairs.last() == changes_side(s, level, s.len() - 2));
    }
}

/// In twentieths, the share of neighbouring pairs up to which a frame can be
/// voice.
pub open spec fn most_apart(mode: VadMode) -> int {
    match mode {
        VadMode::Quality => 16,
        VadMode::LowBitrate => 12,
        VadMode::Aggressive => 9,
        VadMode::VeryAggressive => 7,
        VadMode::Energy => 20,
    }
}

/// The distance from the mean at which a frame is loud enough for voice.
pub open spec fn loud_enough(mode: VadMode) -> int {
    match mode {
        VadMode::Quality => 8,
        VadMode::LowBitrate => 15,
        VadMode::Aggressive => 30,
        VadMode::VeryAggressive => 60,
        VadMode::Energy => 8,
    }
}

/// The running mean of the samples, after a frame.
pub open spec fn running_mean(v: VoiceActivityDetector, samples: Seq<i16>) -> int {
    vad::trunc_div(v.next_dc(samples), 256)
}

/// A frame is taken for silence: it ends what voice was heard, and does not
/// start talking.
pub open spec fn taken_for_silence(v: VoiceActivityDetector, samples: Seq<i16>) -> bool {
    let next = v.processed(samples);
    &&& next.voice_sample_count == 0
    &&& next.state != VadState::StartTalking
}

/// A frame is taken for voice: it ends what silence was heard, and does not stop
/// talking.
pub open spec fn taken_for_voice(v: VoiceActivityDetector, samples: Seq<i16>) -> bool {
    let next = v.processed(samples);
    &&& next.silence_sample_count == 0
    &&& next.voice_sample_count > 0
    &&& next.state != VadState::StopTalking
}

/// Noise is not voice, however loud: a frame in which more of the neighbouring
/// pairs lie on different sides of the running mean than the mode allows is
/// taken for silence.
pub proof fn law_noise_is_silence(v: VoiceActivityDetector, samples: Seq<i16>)
    requires
        v.valid(),
        v.mode != VadMode::Energy,
        v.channel_of(samples).len() >= 2,
        20 * pairs_apart(v.channel_of(samples), running_mean(v, samples)) > most_apart(v.mode) * (
        v.channel_of(samples).len() - 1),
    ensures
        taken_for_silence(v, samples),
{
    lemma_crossings(v.channel_of(samples), running_mean(v, samples));
}

/// What is quiet is not voice: a frame whose samples all lie nearer to the
/// running mean than the mode asks for is taken for silence.
pub proof fn law_quiet_is_silence(v: VoiceActivityDetector, samples: Seq<i16>)
    requires
        v.valid(),
        v.mode != VadMode::Energy,
        samples.len() > 0,
        forall|i: int|
            0 <= i < v.channel_of(samples).len() ==> -loud_enough(v.mode) < (
            #[trigger] v.channel_of(samples)[i]) - running_mean(v, samples) < loud_enough(v.mode),
    ensures
        taken_for_silence(v, samples),
{
    let c = v.channel_of(samples);
    if c.len() >= 2 {
        lemma_squares_below(c, running_mean(v, samples), loud_enough(v.mode));
    }
}

/// What is loud and steady is voice: a frame whose samples all lie as far from
/// the running mean as the mode asks for, and change sides no oftener than it
/// allows.
pub proof fn law_loud_is_voice(v: VoiceActivityDetector, samples: Seq<i16>)
    requires
        v.valid(),
        v.mode != VadMode::Energy,
        v.threshold < u32::MAX,
        v.channel_of(samples).len() >= 2,
        20 * pairs_apart(v.channel_of(samples), running_mean(v, samples)) <= most_apart(v.mode) * (
        v.channel_of(samples).len() - 1),
        forall|i: int|
            0 <= i < v.channel_of(samples).len() ==> (#[trigger] v.channel_of(samples)[i])
                - running_mean(v, samples) >= loud_enough(v.mode) || v.channel_of(samples)[i]
                - running_mean(v, samples) <= -loud_enough(v.mode),
    ensures
        taken_for_voice(v, samples),
{
    let c = v.channel_of(samples);
    lemma_crossings(c, running_mean(v, samples));
    lemma_squares_above(c, running_mean(v, samples), loud_enough(v.mode));
    lemma_channel(v, samples);
}

proof fn lemma_channel(v: VoiceActivityDetector, samples: Seq<i16>)
    requires
        v.valid(),
    ensures
        v.channel_of(samples).len() > 0 ==> samples.len() > 0,
{
    if samples.len() == 0 {
        assert(0int / v.channels as int == 0) by (nonlinear_arith)
            requires
                v.channels >= 1,
        ;
    }
}

proof fn lemma_squares_below(s: Seq<i16>, level: int, r: int)
    requires
        s.len() > 0,
        r > 0,
        forall|i: int| 0 <= i < s.len() ==> -r < (#[trigger] s[i]) - level < r,
    ensures
        vad::square_sum(s, level) < r * r * s.len(),
    decreases s.len(),
{
    let t = s.drop_last();
    let d = s.last() - level;
    assert(s.last() == s[s.len() - 1]);
    assert(d * d < r * r) by (nonlinear_arith)
        requires
            -r < d < r,
    ;
    assert(r * r * s.len() == r * r * t.len() + r * r) by (nonlinear_arith)
        requires
            s.len() == t.len() + 1,
    ;
    if t.len() > 0 {
        assert forall|i: int| 0 <= i < t.len() implies -r < (#[trigger] t[i]) - level < r by {
            assert(t[i] == s[i]);
        }
        lemma_squares_below(t, level, r);
    } else {
        assert(vad::square_sum(t, level) == 0);
        assert(r * r * t.len() == 0) by (nonlinear_arith)
            requires
                t.len() == 0,
        ;
    }
}

proof fn lemma_squares_above(s: Seq<i16>, level: int, r: int)
    requires
        r > 0,
        forall|i: int|
            0 <= i < s.len() ==> (#[trigger] s[i]) - level >= r || s[i] - level <= -r,
    ensures
        vad::square_sum(s, level) >= r * r * s.len(),
    decreases s.len(),
{
    if s.len() > 0 {
        let t = s.drop_last();
        let d = s.last() - level;
        assert(s.last() == s[s.len() - 1]);
        assert(d * d >= r * r) by (nonlinear_arith)
            requires
                d >= r || d <= -r,
                r > 0,
        ;
        assert(r * r * s.len() == r * r * t.len() + r * r) by (nonlinear_arith)
            requires
                s.len() == t.len() + 1,
        ;
        assert forall|i: int| 0 <= i < t.len() implies (#[trigger] t[i]) - level >= r || t[i] - level
            <= -r by {
            assert(t[i] == s[i]);
        }
        lemma_squares_above(t, level, r);
    } else {
        assert(r * r * s.len() == 0) by (nonlinear_arith)
            requires
                s.len() == 0,
        ;
    }
}

/// The mean distance of samples from a level lies between their least and their
/// greatest distance; of samples that all lie equally far it is that distance.
pub proof fn law_mean_distance(s: Seq<i16>, level: int, low: int, high: int)
    requires
        s.len() > 0,
        forall|i: int|
            0 <= i < s.len() ==> low <= #[trigger] vad::distance(s[i], level) <= high,
    ensures
        low <= vad::mean_distance(s, level) <= high,
{
    lemma_distances(s, level, low, high);
    let sum = vad::distance_sum(s, level);
    let n = s.len() as int;
    vstd::arithmetic::div_mod::lemma_fundamental_div_mod(sum, n);
    let q = sum / n;
    assert(low <= q <= high) by (nonlinear_arith)
        requires
            n > 0,
            low * n <= sum <= high * n,
            sum == n * q + sum % n,
            0 <= sum % n < n,
    ;
}

proof fn lemma_distances(s: Seq<i16>, level: int, low: int, high: int)
    requires
        forall|i: int|
            0 <= i < s.len() ==> low <= #[trigger] vad::distance(s[i], level) <= high,
    ensures
        low * s.len() <= vad::distance_sum(s, level) <= high * s.len(),
    decreases s.len(),
{
    if s.len() > 0 {
        let t = s.drop_last();
        assert forall|i: int| 0 <= i < t.len() implies low <= #[trigger] vad::distance(t[i], level)
            <= high by {
            assert(t[i] == s[i]);
        }
        lemma_distances(t, level, low, high);
        assert(low <= vad::distance(s[s.len() - 1], level) <= high);
        assert(low * s.len() == low * t.len() + low && high * s.len() == high * t.len() + high)
            by (nonlinear_arith)
            requires
                s.len() == t.len() + 1,
        ;
    } else {
        assert(low * s.len() == 0 && high * s.len() == 0) by (nonlinear_arith)
            requires
                s.len() == 0,
        ;
    }
}

/// The distance of a sample from a level is that in which they differ.
pub proof fn law_distance(x: i16, level: int)
    ensures
        vad::distance(x, level) >= 0,
        vad::distance(x, level) == x - level || vad::distance(x, level) == level - x,
{
}

/// The mean distance is the sum of the distances, shared out.
pub proof fn law_mean_shares_out(s: Seq<i16>, x: i16, level: int)
    ensures
        vad::distance_sum(s.push(x), level) == vad::distance_sum(s, level) + vad::distance(x, level),
        s.len() > 0 ==> vad::mean_distance(s, level) * s.len() <= vad::distance_sum(s, level) < (
        vad::mean_distance(s, level) + 1) * s.len(),
{
    assert(s.push(x).drop_last() =~= s);
    if s.len() > 0 {
        let sum = vad::distance_sum(s, level);
        let n = s.len() as int;
        vstd::arithmetic::div_mod::lemma_fundamental_div_mod(sum, n);
        let q = sum / n;
        assert(q * n <= sum < (q + 1) * n) by (nonlinear_arith)
            requires
                n > 0,
                sum == n * q + sum % n,
                0 <= sum % n < n,
        ;
    }
}

/// By energy alone, a frame is voice if its samples all lie further from the
/// running mean than the threshold, and silence if none does.
pub proof fn law_energy_against_threshold(v: VoiceActivityDetector, samples: Seq<i16>)
    requires
        v.valid(),
        v.mode == VadMode::Energy,
        v.channel_of(samples).len() > 0,
    ensures
        ({
            let c = v.channel_of(samples);
            let level = running_mean(v, samples);
            &&& (forall|i: int|
                0 <= i < c.len() ==> #[trigger] vad::distance(c[i], level) > v.threshold)
                ==> taken_for_voice(v, samples)
            &&& (forall|i: int|
                0 <= i < c.len() ==> #[trigger] vad::distance(c[i], level) <= v.threshold)
                ==> taken_for_silence(v, samples)
            &&& vad::distance_sum(c, level) >= (v.threshold + 1) * c.len() <==> v.processed(
                samples,
            ).voice_sample_count > 0
        }),
{
    let c = v.channel_of(samples);
    let level = running_mean(v, samples);
    lemma_channel(v, samples);
    lemma_level(v, samples);
    lemma_distances(c, level, 0, 65536);
    law_mean_distance(c, level, 0, 65536);
    law_mean_shares_out(c, 0, level);
    let sum = vad::distance_sum(c, level);
    let q = vad::mean_distance(c, level);
    let n = c.len() as int;
    let t = v.threshold as int;
    assert(q > t <==> sum >= (t + 1) * n) by (nonlinear_arith)
        requires
            n > 0,
            q * n <= sum < (q + 1) * n,
    ;
    if forall|i: int| 0 <= i < c.len() ==> #[trigger] vad::distance(c[i], level) > t {
        assert forall|i: int| 0 <= i < c.len() implies t + 1 <= #[trigger] vad::distance(
            c[i],
            level,
        ) <= 65536 by {}
        law_mean_distance(c, level, t + 1, 65536);
    }
    if forall|i: int| 0 <= i < c.len() ==> #[trigger] vad::distance(c[i], level) <= t {
        law_mean_distance(c, level, 0, t);
    }
}

/// The running mean stays within the range of samples.
proof fn lemma_level(v: VoiceActivityDetector, samples: Seq<i16>)
    requires
        v.valid(),
    ensures
        -32768 <= running_mean(v, samples) <= 32768,
{
    let c = v.channel_of(samples);
    if c.len() > 0 {
        lemma_sum(c);
        let sum = vad::sum_of(c);
        let n = c.len() as int;
        let a = if sum >= 0 {
            sum
        } else {
            -sum
        };
        vstd::arithmetic::div_mod::lemma_fundamental_div_mod(a, n);
        let q = a / n;
        assert(0 <= q <= 32768) by (nonlinear_arith)
            requires
                n > 0,
                0 <= a <= 32768 * n,
                a == n * q + a % n,
                0 <= a % n < n,
        ;
    }
}

proof fn lemma_sum(s: Seq<i16>)
    ensures
        -32768 * s.len() <= vad::sum_of(s) <= 32768 * s.len(),
    decreases s.len(),
{
    if s.len() > 0 {
        lemma_sum(s.drop_last());
    }
}

/// The running mean, in 256ths: a frame takes a 256th of what was there away,
/// and adds its own mean; both are rounded towards zero.
pub proof fn law_running_mean(v: VoiceActivityDetector, samples: Seq<i16>, kept: int, mean: int)
    requires
        v.valid(),
        v.channel_of(samples).len() > 0,
        -256 < 256 * kept - 255 * v.dc_estimate < 256,
        v.dc_estimate >= 0 ==> 256 * kept <= 255 * v.dc_estimate,
        v.dc_estimate <= 0 ==> 256 * kept >= 255 * v.dc_estimate,
        ({
            let sum = vad::sum_of(v.channel_of(samples));
            let n = v.channel_of(samples).len() as int;
            &&& sum >= 0 ==> mean * n <= sum < (mean + 1) * n
            &&& sum <= 0 ==> (mean - 1) * n < sum <= mean * n
        }),
    ensures
        v.processed(samples).dc_estimate == kept + mean,
{
    let c = v.channel_of(samples);
    let sum = vad::sum_of(c);
    let n = c.len() as int;
    lemma_channel(v, samples);
    let a = if sum >= 0 {
        sum
    } else {
        -sum
    };
    let m = if sum >= 0 {
        mean
    } else {
        -mean
    };
    vstd::arithmetic::div_mod::lemma_fundamental_div_mod(a, n);
    let q = a / n;
    assert((-mean) * n == -(mean * n) && (-mean + 1) * n == -((mean - 1) * n)) by (nonlinear_arith);
    assert(q == m) by (nonlinear_arith)
        requires
            n > 0,
            m * n <= a < (m + 1) * n,
            a == n * q + a % n,
            0 <= a % n < n,
    ;
    assert(vad::trunc_div(v.dc_estimate * 255, 256) == kept);
    lemma_sum(c);
    assert(-32768 <= mean <= 32768) by (nonlinear_arith)
        requires
            n > 0,
            m * n <= a <= 32768 * n,
            a >= 0,
            a < (m + 1) * n,
            m == mean || m == -mean,
    ;
}

/// The sum of samples.
pub proof fn law_sum(s: Seq<i16>, x: i16)
    ensures
        vad::sum_of(Seq::empty()) == 0,
        vad::sum_of(s.push(x)) == vad::sum_of(s) + x,
{
    assert(s.push(x).drop_last() =~= s);
}

/// Of interleaved channels the first one counts: every `channels`-th sample from
/// the first on, as many as there are whole groups.
pub proof fn law_first_channel(s: Seq<i16>, channels: int, i: int)
    requires
        channels > 0,
        0 <= i,
        (i + 1) * channels <= s.len(),
    ensures
        i < vad::first_channel(s, channels).len(),
        vad::first_channel(s, channels)[i] == s[i * channels],
        vad::first_channel(s, channels).len() * channels <= s.len() < (vad::first_channel(
            s,
            channels,
        ).len() + 1) * channels,
{
    let n = s.len() as int;
    vstd::arithmetic::div_mod::lemma_fundamental_div_mod(n, channels);
    let q = n / channels;
    assert(i < q && 0 <= q && q * channels <= n < (q + 1) * channels) by (nonlinear_arith)
        requires
            channels > 0,
            0 <= i,
            (i + 1) * channels <= n,
            n == channels * q + n % channels,
            0 <= n % channels < channels,
    ;
}

/// Talking starts with the frame that brings the voice heard in a row over the
/// onset, and stops with the one that brings the silence over the holdoff.
pub proof fn law_onset_and_holdoff(v: VoiceActivityDetector, n: int)
    requires
        0 <= n,
        v.voice_sample_count + n <= u32::MAX,
        v.silence_sample_count + n <= u32::MAX,
    ensures
        ({
            let a = v.heard_voice(n);
            &&& a.voice_sample_count == v.voice_sample_count + n
            &&& v.state == VadState::Silence ==> (a.state == VadState::StartTalking <==> v.voice_sample_count
                + n > v.voice_onset_samples)
            &&& v.state == VadState::Talking ==> a.state == VadState::Talking
        }),
        ({
            let b = v.heard_silence(n);
            &&& b.silence_sample_count == v.silence_sample_count + n
            &&& v.state == VadState::Talking ==> (b.state == VadState::StopTalking <==> v.silence_sample_count
                + n > v.silence_holdoff_samples)
            &&& v.state == VadState::Silence ==> b.state == VadState::Silence
        }),
{
}

/// How many samples a frame counts for: those of its first channel.
pub proof fn law_frame_counts(v: VoiceActivityDetector, samples: Seq<i16>)
    requires
        v.valid(),
        v.voice_sample_count + v.channel_of(samples).len() <= u32::MAX,
        v.silence_sample_count + v.channel_of(samples).len() <= u32::MAX,
    ensures
        ({
            let next = v.processed(samples);
            let n = v.channel_of(samples).len();
            &&& next.voice_sample_count == 0 || next.voice_sample_count == v.voice_sample_count + n
            &&& next.silence_sample_count == 0 || next.silence_sample_count
                == v.silence_sample_count + n
            &&& samples.len() == 0 ==> taken_for_silence(v, samples) && next.last_energy == 0
        }),
{
    lemma_channel(v, samples);
    if samples.len() == 0 {
        assert(0int / v.channels as int == 0) by (nonlinear_arith)
            requires
                v.channels >= 1,
        ;
    }
}

/// The energy that is told of a frame is the mean size of its samples.
pub proof fn law_energy_told(v: VoiceActivityDetector, samples: Seq<i16>, low: int, high: int)
    requires
        v.valid(),
        v.channel_of(samples).len() > 0,
        forall|i: int|
            0 <= i < v.channel_of(samples).len() ==> low <= #[trigger] vad::distance(
                v.channel_of(samples)[i],
                0,
            ) <= high,
        0 <= low,
        high <= 32768,
    ensures
        low <= v.processed(samples).last_energy <= high,
{
    lemma_channel(v, samples);
    law_mean_distance(v.channel_of(samples), 0, low, high);
}

/// A detector counts at 8000 samples a second or more. It starts out in silence,
/// with as many samples to wait as its times last, in whole ones.
pub proof fn law_configured(rate: u32, threshold: u32, onset_ms: u32, holdoff_ms: u32)
    requires
        rate * onset_ms <= u32::MAX,
        rate * holdoff_ms <= u32::MAX,
        8000 * onset_ms <= u32::MAX,
        8000 * holdoff_ms <= u32::MAX,
    ensures
        ({
            let v = VoiceActivityDetector::configured(rate, threshold, onset_ms, holdoff_ms);
            let r = v.sample_rate;
            &&& rate >= 8000 ==> r == rate
            &&& rate < 8000 ==> r == 8000
            &&& v.voice_onset_samples * 1000 <= r * onset_ms < (v.voice_onset_samples + 1) * 1000
            &&& v.silence_holdoff_samples * 1000 <= r * holdoff_ms < (v.silence_holdoff_samples + 1)
                * 1000
            &&& v.threshold == threshold
            &&& v.state == VadState::Silence
            &&& v.mode == VadMode::Energy
            &&& v.voice_sample_count == 0
            &&& v.silence_sample_count == 0
            &&& v.dc_estimate == 0
            &&& v.channels == 1
        }),
{
    let r = vad::usable_rate(rate);
    assert(0 <= r * onset_ms && 0 <= r * holdoff_ms) by (nonlinear_arith)
        requires
            r >= 0,
            onset_ms >= 0,
            holdoff_ms >= 0,
    ;
}

} // verus!
