//! What the samples at a new rate are.

use crate::rtp::resampler;
use crate::rtp::resampler::{AudioResampler, ResampleQuality, ResampleStep};
use vstd::prelude::*;

verus! {

/// Four rates can be converted.
pub proof fn law_rates(rate: u32)
    ensures
        resampler::supported(rate) <==> rate == 8000 || rate == 16000 || rate == 32000 || rate
            == 48000,
{
    if resampler::supported(rate) {
        resampler::lemma_supported(rate);
    }
    assert(resampler::SUPPORTED_RATES@[0] == 8000 && resampler::SUPPORTED_RATES@[1] == 16000);
    assert(resampler::SUPPORTED_RATES@[2] == 32000 && resampler::SUPPORTED_RATES@[3] == 48000);
}

/// As many samples come out as fit in the time of those that went in, and one
/// more where some of it is left.
pub proof fn law_length(n: int, from: int, to: int)
    requires
        n >= 0,
        from > 0,
        to > 0,
    ensures
        resampler::scaled_len(n, from, to) * from >= n * to,
        resampler::scaled_len(n, from, to) * from < n * to + from,
{
    let total = n * to + from - 1;
    vstd::arithmetic::div_mod::lemma_fundamental_div_mod(total, from);
    let len = resampler::scaled_len(n, from, to);
    assert(from * len == len * from) by (nonlinear_arith);
}

/// A converter foretells that length; without a change of rate, the same.
pub proof fn law_length_converted(r: AudioResampler, n: int)
    requires
        r.valid(),
        n >= 0,
    ensures
        r.converted_len(n) * r.from_rate >= n * r.to_rate,
        r.converted_len(n) * r.from_rate < n * r.to_rate + r.from_rate,
{
    law_rates(r.from_rate);
    law_rates(r.to_rate);
    if r.from_rate != r.to_rate {
        law_length(n, r.from_rate as int, r.to_rate as int);
    }
}

/// The sample that stands at a position, and silence behind the last.
pub open spec fn heard(s: Seq<i16>, i: int) -> int {
    if 0 <= i < s.len() {
        s[i] as int
    } else {
        0
    }
}

/// A sample at the new rate lies on the line between the two samples around it,
/// rounded to the nearest, and from the middle away from zero. The `i`-th stands
/// `part` of `to` parts behind the one at `at`.
pub proof fn law_on_the_line(s: Seq<i16>, from: int, to: int, i: int, at: int, part: int)
    requires
        0 < from <= 48000,
        0 < to <= 48000,
        0 <= i < resampler::interpolated(s, from, to).len(),
        i * from == at * to + part,
        0 <= part < to,
    ensures
        0 <= at < s.len(),
        ({
            let v = resampler::interpolated(s, from, to)[i];
            let line = heard(s, at) * (to - part) + heard(s, at + 1) * part;
            &&& line >= 0 ==> 2 * line - to < 2 * (v * to) <= 2 * line + to
            &&& line <= 0 ==> 2 * line - to <= 2 * (v * to) < 2 * line + to
        }),
{
    resampler::lemma_position(s.len() as int, from, to, i);
    assert(at * to + part == to * at + part) by (nonlinear_arith);
    vstd::arithmetic::div_mod::lemma_fundamental_div_mod_converse(i * from, to, at, part);
    let a = heard(s, at);
    let b = heard(s, at + 1);
    let n = a * to + (b - a) * part;
    let line = a * (to - part) + b * part;
    assert(n == line) by (nonlinear_arith)
        requires
            n == a * to + (b - a) * part,
            line == a * (to - part) + b * part,
    ;
    resampler::lemma_between(a, b, part, to);
    lemma_rounded(n, to);
}

proof fn lemma_rounded(n: int, d: int)
    requires
        d > 0,
    ensures
        ({
            let v = resampler::rounded(n, d);
            &&& n >= 0 ==> 2 * n - d < 2 * (v * d) <= 2 * n + d
            &&& n <= 0 ==> 2 * n - d <= 2 * (v * d) < 2 * n + d
        }),
{
    let v = resampler::rounded(n, d);
    if n >= 0 {
        let x = 2 * n + d;
        vstd::arithmetic::div_mod::lemma_fundamental_div_mod(x, 2 * d);
        assert((2 * d) * v == 2 * (v * d)) by (nonlinear_arith);
        if n == 0 {
            assert(v == 0) by (nonlinear_arith)
                requires
                    2 * (v * d) <= d,
                    2 * (v * d) > -d,
                    d > 0,
            ;
        }
    } else {
        let x = -2 * n + d;
        let q = x / (2 * d);
        vstd::arithmetic::div_mod::lemma_fundamental_div_mod(x, 2 * d);
        assert((2 * d) * q == -(2 * (v * d))) by (nonlinear_arith)
            requires
                v == -q,
        ;
    }
}

/// The history holds the last samples of the stream, as many as before.
pub proof fn law_history(r: AudioResampler, input: Seq<i16>, i: int)
    requires
        0 <= i < r.history@.len(),
    ensures
        r.carried(input).len() == r.history@.len(),
        i + input.len() >= r.history@.len() ==> r.carried(input)[i] == input[i + input.len()
            - r.history@.len()],
        i + input.len() < r.history@.len() ==> r.carried(input)[i] == r.history@[i + input.len()],
{
}

/// The better filter is asked for with the sixteen samples before the new ones
/// in front of them, and for as many as all of these become.
pub proof fn law_filter_asked_for(r: AudioResampler, input: Seq<i16>, step: ResampleStep)
    requires
        r.valid(),
        r.quality == ResampleQuality::Sinc,
        r.from_rate != r.to_rate,
        input.len() > 0,
        r.is_step(input, step),
    ensures
        step matches ResampleStep::Filter { extended, len } && extended@.len() == 16 + input.len()
            && (forall|i: int| 0 <= i < 16 ==> #[trigger] extended@[i] == r.history@[i]) && (
        forall|i: int| 0 <= i < input.len() ==> #[trigger] input[i] == extended@[16 + i]) && len
            * r.from_rate >= extended@.len() * r.to_rate && len * r.from_rate < extended@.len()
            * r.to_rate + r.from_rate,
{
    law_length_converted(r, 16 + input.len() as int);
}

/// Without a change of rate, or without samples, the samples stay.
pub proof fn law_same_rate(r: AudioResampler, input: Seq<i16>, step: ResampleStep)
    requires
        r.is_step(input, step),
        r.from_rate == r.to_rate || input.len() == 0,
    ensures
        step matches ResampleStep::Done(v) && v@ == input,
{
}

/// The fast filter gives the samples on the line, except where they would stand
/// at thirds: there it says how many are asked for.
pub proof fn law_line_taken(r: AudioResampler, input: Seq<i16>, step: ResampleStep)
    requires
        r.valid(),
        r.quality == ResampleQuality::Linear,
        r.from_rate != r.to_rate,
        input.len() > 0,
        r.is_step(input, step),
    ensures
        r.to_rate != 48000 ==> (step matches ResampleStep::Done(v) && v@ == resampler::interpolated(
            input,
            r.from_rate as int,
            r.to_rate as int,
        )),
        r.to_rate == 48000 ==> (step matches ResampleStep::Interpolate { len } && len * r.from_rate
            >= input.len() * 48000 && len * r.from_rate < input.len() * 48000 + r.from_rate),
{
    law_length_converted(r, input.len() as int);
}

} // verus!
