//! Sample rate conversion: which rates, how long, what lies between two samples,
//! and what a stream carries over from one call to the next. Where the new rate
//! divides a sample into thirds, and for the sinc filter, the fractions are not
//! exact, and the samples are the caller's.

pub mod laws;

use vstd::prelude::*;
use vstd::slice::*;

verus! {

/// The rates that can be converted.
pub const SUPPORTED_RATES: [u32; 4] = [8000, 16000, 32000, 48000];

/// Samples that the sinc filter looks back on.
pub const SINC_TAPS: usize = 16;

/// The filters.
#[derive(Debug, Clone, Copy, PartialEq, Eq, Structural)]
pub enum ResampleQuality {
    /// Fast.
    Linear,
    /// Better.
    Sinc,
}

/// The rates that can be converted.
pub open spec fn supported(rate: u32) -> bool {
    SUPPORTED_RATES@.contains(rate)
}

/// The rates, one by one.
proof fn lemma_supported(rate: u32)
    requires
        supported(rate),
    ensures
        rate == 8000 || rate == 16000 || rate == 32000 || rate == 48000,
{
    let i = choose|i: int| 0 <= i < 4 && SUPPORTED_RATES@[i] == rate;
    assert(SUPPORTED_RATES@[i] == rate);
    assert(SUPPORTED_RATES@[0] == 8000 && SUPPORTED_RATES@[1] == 16000);
    assert(SUPPORTED_RATES@[2] == 32000 && SUPPORTED_RATES@[3] == 48000);
}

/// Whether a rate can be converted.
pub fn is_supported_rate(rate: u32) -> (r: bool)
    ensures
        r == supported(rate),
{
    let mut i: usize = 0;
    while i < 4
        invariant
            i <= 4,
            forall|k: int| 0 <= k < i ==> SUPPORTED_RATES@[k] != rate,
        decreases 4 - i,
    {
        if SUPPORTED_RATES[i] == rate {
            assert(SUPPORTED_RATES@[i as int] == rate);
            return true;
        }
        i += 1;
    }
    false
}

// ---------------------------------------------------------------------------
// Linear interpolation
// ---------------------------------------------------------------------------

/// A sample, zero behind the last.
pub open spec fn sample_or_zero(s: Seq<i16>, i: int) -> int {
    if i < s.len() {
        s[i] as int
    } else {
        0
    }
}

/// A fraction rounded to the nearest whole number, halves away from zero.
pub open spec fn rounded(n: int, d: int) -> int {
    if n >= 0 {
        (2 * n + d) / (2 * d)
    } else {
        -((-2 * n + d) / (2 * d))
    }
}

/// The `i`-th sample at the new rate: on the line between the two samples that
/// it falls between.
pub open spec fn interpolated_at(s: Seq<i16>, from: int, to: int, i: int) -> i16 {
    let at = i * from / to;
    let part = i * from % to;
    let a = s[at] as int;
    let b = sample_or_zero(s, at + 1);
    rounded(a * to + (b - a) * part, to) as i16
}

/// How many samples `n` samples become, rounded up.
pub open spec fn scaled_len(n: int, from: int, to: int) -> int {
    (n * to + from - 1) / from
}

/// Samples at a new rate.
pub open spec fn interpolated(s: Seq<i16>, from: int, to: int) -> Seq<i16> {
    Seq::new(
        scaled_len(s.len() as int, from, to) as nat,
        |i: int| interpolated_at(s, from, to, i),
    )
}

proof fn lemma_between(a: int, b: int, part: int, to: int)
    requires
        -32768 <= a <= 32767,
        -32768 <= b <= 32767,
        0 <= part < to,
        to <= 48000,
    ensures
        -32768 * to <= a * to + (b - a) * part <= 32767 * to,
        -0x1_0000 * 48000 <= (b - a) * part <= 0x1_0000 * 48000,
        -32768 <= rounded(a * to + (b - a) * part, to) <= 32767,
{
    let n = a * to + (b - a) * part;
    assert(n == a * (to - part) + b * part) by (nonlinear_arith)
        requires
            n == a * to + (b - a) * part,
    ;
    assert(-32768 * to <= n <= 32767 * to) by (nonlinear_arith)
        requires
            n == a * (to - part) + b * part,
            -32768 <= a <= 32767,
            -32768 <= b <= 32767,
            0 <= part < to,
    ;
    assert(-0x1_0000 * 48000 <= (b - a) * part <= 0x1_0000 * 48000) by (nonlinear_arith)
        requires
            -0x1_0000 <= b - a <= 0x1_0000,
            0 <= part <= 48000,
    ;
    assert(-32768 <= rounded(n, to) <= 32767) by {
        if n >= 0 {
            assert((2 * n + to) / (2 * to) <= 32767) by (nonlinear_arith)
                requires
                    0 <= n <= 32767 * to,
                    to > 0,
            ;
            assert(0 <= (2 * n + to) / (2 * to)) by (nonlinear_arith)
                requires
                    n >= 0,
                    to > 0,
            ;
        } else {
            assert(0 <= (-2 * n + to) / (2 * to) <= 32768) by (nonlinear_arith)
                requires
                    -32768 * to <= n < 0,
                    to > 0,
            ;
        }
    }
}

/// A position lies before the end as long as its number is below the length.
proof fn lemma_position(n: int, from: int, to: int, i: int)
    requires
        n >= 0,
        i >= 0,
        from > 0,
        to > 0,
    ensures
        i * from < n * to <==> i < scaled_len(n, from, to),
        i * from < n * to ==> 0 <= i * from / to < n,
        scaled_len(n, from, to) >= 0,
{
    let len = scaled_len(n, from, to);
    let total = n * to;
    assert(total >= 0) by (nonlinear_arith)
        requires
            total == n * to,
            n >= 0,
            to > 0,
    ;
    vstd::arithmetic::div_mod::lemma_fundamental_div_mod(total + from - 1, from);
    assert(from * len == len * from) by (nonlinear_arith);
    assert(total <= len * from < total + from);
    assert(len >= 0) by (nonlinear_arith)
        requires
            total <= len * from,
            total >= 0,
            from > 0,
    ;
    if i < len {
        assert(i * from <= len * from - from) by (nonlinear_arith)
            requires
                i <= len - 1,
                from > 0,
        ;
    } else {
        assert(i * from >= len * from) by (nonlinear_arith)
            requires
                i >= len,
                from > 0,
        ;
    }
    if i * from < total {
        assert(0 <= i * from / to < n) by (nonlinear_arith)
            requires
                0 <= i * from < n * to,
                to > 0,
        {
            assert(i * from >= 0);
        }
    }
}

fn round_fraction(n: i64, d: i64) -> (r: i16)
    requires
        0 < d <= 48000,
        -32768 * d <= n <= 32767 * d,
        -32768 <= rounded(n as int, d as int) <= 32767,
    ensures
        r == rounded(n as int, d as int),
{
    if n >= 0 {
        ((2 * n + d) / (2 * d)) as i16
    } else {
        let q: i64 = (-2 * n + d) / (2 * d);
        (-q) as i16
    }
}

fn interpolate(input: &[i16], from: u32, to: u32) -> (out: Vec<i16>)
    requires
        0 < from <= 48000,
        0 < to <= 48000,
    ensures
        out@ == interpolated(input@, from as int, to as int),
{
    let len: usize = input.len();
    assert(0 <= len * to <= u64::MAX * 48000) by (nonlinear_arith)
        requires
            0 <= len <= u64::MAX,
            0 < to <= 48000,
    ;
    let total: u128 = len as u128 * to as u128;
    let mut out: Vec<i16> = Vec::new();
    let mut pos: u128 = 0;
    assert(out@.len() * from == 0) by (nonlinear_arith)
        requires
            out@.len() == 0,
    ;
    proof {
        lemma_position(len as int, from as int, to as int, 0);
    }
    while pos < total
        invariant
            0 < from <= 48000,
            0 < to <= 48000,
            len == input@.len(),
            total == len * to,
            total <= u64::MAX * 48000,
            pos == out@.len() * from,
            pos < total + from,
            out@.len() <= scaled_len(len as int, from as int, to as int),
            forall|i: int|
                0 <= i < out@.len() ==> #[trigger] out@[i] == interpolated_at(
                    input@,
                    from as int,
                    to as int,
                    i,
                ),
        decreases total + from - pos,
    {
        proof {
            lemma_position(len as int, from as int, to as int, out@.len() as int);
        }
        let at: usize = (pos / to as u128) as usize;
        let part: i64 = (pos % to as u128) as i64;
        let a: i64 = input[at] as i64;
        let b: i64 = if at + 1 < len {
            input[at + 1] as i64
        } else {
            0
        };
        proof {
            lemma_between(a as int, b as int, part as int, to as int);
        }
        let n: i64 = a * to as i64 + (b - a) * part;
        let ghost before = out@;
        out.push(round_fraction(n, to as i64));
        assert((before.len() + 1) * from == before.len() * from + from) by (nonlinear_arith);
        pos = pos + from as u128;
    }
    proof {
        lemma_position(len as int, from as int, to as int, out@.len() as int);
        assert(out@ =~= interpolated(input@, from as int, to as int));
    }
    out
}

/// By a whole factor down, every so many-th sample stays.
pub proof fn law_decimates(s: Seq<i16>, to: int, k: int, i: int)
    requires
        to > 0,
        k >= 1,
        0 <= i < interpolated(s, k * to, to).len(),
    ensures
        i * k < s.len(),
        interpolated(s, k * to, to)[i] == s[i * k],
{
    let from = k * to;
    assert(from > 0) by (nonlinear_arith)
        requires
            from == k * to,
            k >= 1,
            to > 0,
    ;
    lemma_position(s.len() as int, from, to, i);
    assert(i * from == (i * k) * to) by (nonlinear_arith)
        requires
            from == k * to,
    ;
    vstd::arithmetic::div_mod::lemma_fundamental_div_mod_converse(i * from, to, i * k, 0);
    lemma_whole(s[i * k] as int, to);
    assert((sample_or_zero(s, i * k + 1) - s[i * k]) * 0 == 0);
}

/// By a whole factor up, the samples stay and others come between them.
pub proof fn law_keeps_samples(s: Seq<i16>, from: int, k: int, i: int)
    requires
        from > 0,
        k >= 1,
        0 <= i < s.len(),
    ensures
        i * k < interpolated(s, from, k * from).len(),
        interpolated(s, from, k * from)[i * k] == s[i],
{
    let to = k * from;
    assert(to > 0) by (nonlinear_arith)
        requires
            to == k * from,
            k >= 1,
            from > 0,
    ;
    assert((i * k) * from == i * to) by (nonlinear_arith)
        requires
            to == k * from,
    ;
    assert(i * k >= 0) by (nonlinear_arith)
        requires
            i >= 0,
            k >= 1,
    ;
    assert(i * to < s.len() * to) by (nonlinear_arith)
        requires
            i < s.len(),
            to > 0,
    ;
    lemma_position(s.len() as int, from, to, i * k);
    vstd::arithmetic::div_mod::lemma_fundamental_div_mod_converse((i * k) * from, to, i, 0);
    lemma_whole(s[i] as int, to);
    assert((sample_or_zero(s, i + 1) - s[i]) * 0 == 0);
}

proof fn lemma_whole(a: int, to: int)
    requires
        to > 0,
    ensures
        rounded(a * to, to) == a,
{
    if a * to >= 0 {
        assert(2 * (a * to) + to == a * (2 * to) + to) by (nonlinear_arith);
        vstd::arithmetic::div_mod::lemma_fundamental_div_mod_converse(
            2 * (a * to) + to,
            2 * to,
            a,
            to,
        );
    } else {
        assert(-2 * (a * to) + to == (-a) * (2 * to) + to) by (nonlinear_arith);
        vstd::arithmetic::div_mod::lemma_fundamental_div_mod_converse(
            -2 * (a * to) + to,
            2 * to,
            -a,
            to,
        );
    }
}

// ---------------------------------------------------------------------------
// Streams
// ---------------------------------------------------------------------------

/// What to do with samples.
pub enum ResampleStep {
    /// Nothing: these are the samples at the new rate.
    Done(Vec<i16>),
    /// Interpolate the samples, in fractions of thirds, to so many.
    Interpolate { len: u128 },
    /// Filter these samples to so many, and hand them to `finish`.
    Filter { extended: Vec<i16>, len: u128 },
}

/// Converts a stream from one rate to another.
pub struct AudioResampler {
    pub from_rate: u32,
    pub to_rate: u32,
    pub quality: ResampleQuality,
    /// The last samples of the stream, for the sinc filter.
    pub history: Vec<i16>,
}

/// The last `n` entries of a sequence.
pub open spec fn last_n(s: Seq<i16>, n: nat) -> Seq<i16> {
    s.subrange(s.len() - n, s.len() as int)
}

impl AudioResampler {
    /// Rates that can be converted, and as much history as the filter needs.
    pub open spec fn valid(self) -> bool {
        &&& supported(self.from_rate)
        &&& supported(self.to_rate)
        &&& self.history@.len() == if self.quality == ResampleQuality::Sinc {
            16nat
        } else {
            0nat
        }
    }

    /// Create a converter, if both rates can be converted.
    pub fn new(from_rate: u32, to_rate: u32, quality: ResampleQuality) -> (r: Option<AudioResampler>)
        ensures
            match r {
                Some(a) => supported(from_rate) && supported(to_rate) && a.valid() && a.from_rate
                    == from_rate && a.to_rate == to_rate && a.quality == quality && forall|i: int|
                    0 <= i < a.history@.len() ==> #[trigger] a.history@[i] == 0,
                None => !supported(from_rate) || !supported(to_rate),
            },
    {
        if !is_supported_rate(from_rate) || !is_supported_rate(to_rate) {
            return None;
        }
        let n: usize = if quality == ResampleQuality::Sinc {
            SINC_TAPS
        } else {
            0
        };
        Some(AudioResampler { from_rate, to_rate, quality, history: silence(n) })
    }

    /// Whether the rates are the same.
    pub fn is_passthrough(&self) -> (r: bool)
        ensures
            r == (self.from_rate == self.to_rate),
    {
        self.from_rate == self.to_rate
    }

    /// What to do with samples.
    pub open spec fn is_step(self, input: Seq<i16>, step: ResampleStep) -> bool {
        if input.len() == 0 || self.from_rate == self.to_rate {
            step matches ResampleStep::Done(v) && v@ == input
        } else if self.quality == ResampleQuality::Linear {
            if self.to_rate == 48000 {
                step matches ResampleStep::Interpolate { len } && len == self.converted_len(
                    input.len() as int,
                )
            } else {
                step matches ResampleStep::Done(v) && v@ == interpolated(
                    input,
                    self.from_rate as int,
                    self.to_rate as int,
                )
            }
        } else {
            step matches ResampleStep::Filter { extended, len } && extended@ == self.history@
                + input && len == self.converted_len(16 + input.len() as int)
        }
    }

    /// Begin to convert samples.
    pub fn begin(&self, input: &[i16]) -> (step: ResampleStep)
        requires
            self.valid(),
        ensures
            self.is_step(input@, step),
    {
        if input.len() == 0 || self.is_passthrough() {
            return ResampleStep::Done(slice_to_vec(input));
        }
        proof {
            lemma_supported(self.from_rate);
            lemma_supported(self.to_rate);
        }
        if self.quality == ResampleQuality::Linear {
            if self.to_rate == 48000 {
                let len: u128 = scale_len(input.len() as u128, self.from_rate, self.to_rate);
                return ResampleStep::Interpolate { len };
            }
            return ResampleStep::Done(interpolate(input, self.from_rate, self.to_rate));
        }
        let mut extended: Vec<i16> = Vec::new();
        extended.extend_from_slice(self.history.as_slice());
        extended.extend_from_slice(input);
        assert(extended@ =~= self.history@ + input@);
        let len: u128 = scale_len(16 + input.len() as u128, self.from_rate, self.to_rate);
        ResampleStep::Filter { extended, len }
    }

    /// The history after more samples: the last of all that came.
    pub open spec fn carried(self, input: Seq<i16>) -> Seq<i16> {
        last_n(self.history@ + input, self.history@.len())
    }

    /// Take what the sinc filter gave for the history and samples: the end of it,
    /// which belongs to the samples, and keep their own end for the next.
    pub fn finish(&mut self, input: &[i16], filtered: &[i16]) -> (out: Vec<i16>)
        requires
            old(self).valid(),
        ensures
            out@ == if old(self).converted_len(input@.len() as int) > filtered@.len() {
                filtered@
            } else {
                last_n(filtered@, old(self).converted_len(input@.len() as int) as nat)
            },
            final(self).history@ == old(self).carried(input@),
            *final(self) == (AudioResampler { history: final(self).history, ..*old(self) }),
            final(self).valid(),
    {
        proof {
            lemma_supported(self.from_rate);
            lemma_supported(self.to_rate);
        }
        let wanted: u128 = if self.is_passthrough() {
            input.len() as u128
        } else {
            scale_len(input.len() as u128, self.from_rate, self.to_rate)
        };
        let out: Vec<i16> = if wanted > filtered.len() as u128 {
            slice_to_vec(filtered)
        } else {
            slice_to_vec(
                slice_subrange(filtered, filtered.len() - wanted as usize, filtered.len()),
            )
        };
        let keep: usize = self.history.len();
        let len: usize = input.len();
        let history: Vec<i16> = if len >= keep {
            slice_to_vec(slice_subrange(input, len - keep, len))
        } else {
            let mut h: Vec<i16> = slice_to_vec(
                slice_subrange(self.history.as_slice(), len, keep),
            );
            h.extend_from_slice(input);
            h
        };
        assert(history@ =~= self.carried(input@));
        self.history = history;
        out
    }

    /// Forget the stream.
    pub fn reset(&mut self)
        requires
            old(self).valid(),
        ensures
            *final(self) == (AudioResampler { history: final(self).history, ..*old(self) }),
            final(self).valid(),
            forall|i: int|
                0 <= i < final(self).history@.len() ==> #[trigger] final(self).history@[i] == 0,
    {
        let n: usize = self.history.len();
        self.history = silence(n);
    }

    /// How many samples a number of samples becomes, rounded up.
    pub open spec fn converted_len(self, n: int) -> int {
        if self.from_rate == self.to_rate {
            n
        } else {
            scaled_len(n, self.from_rate as int, self.to_rate as int)
        }
    }

    /// How many samples a number of samples becomes.
    pub fn output_length(&self, input_len: usize) -> (n: usize)
        requires
            self.valid(),
            self.from_rate != self.to_rate ==> input_len * self.to_rate + self.from_rate - 1
                <= u64::MAX,
            self.converted_len(input_len as int) <= usize::MAX,
        ensures
            n == self.converted_len(input_len as int),
    {
        if self.from_rate == self.to_rate {
            return input_len;
        }
        proof {
            lemma_supported(self.from_rate);
            lemma_supported(self.to_rate);
            lemma_product(input_len as int, self.to_rate as int);
        }
        let num: u64 = input_len as u64 * self.to_rate as u64;
        let den: u64 = self.from_rate as u64;
        ((num + den - 1) / den) as usize
    }

    /// The rate converted from.
    pub fn from_rate(&self) -> (r: u32)
        ensures
            r == self.from_rate,
    {
        self.from_rate
    }

    /// The rate converted to.
    pub fn to_rate(&self) -> (r: u32)
        ensures
            r == self.to_rate,
    {
        self.to_rate
    }
}

proof fn lemma_product(n: int, rate: int)
    by (nonlinear_arith)
    requires
        0 <= n,
        0 <= rate <= 48000,
    ensures
        0 <= n * rate <= n * 48000,
{
}

fn scale_len(n: u128, from: u32, to: u32) -> (len: u128)
    requires
        n <= u64::MAX + 16,
        0 < from <= 48000,
        0 < to <= 48000,
    ensures
        len == scaled_len(n as int, from as int, to as int),
{
    proof {
        lemma_product(n as int, to as int);
        lemma_position(n as int, from as int, to as int, 0);
    }
    (n * to as u128 + from as u128 - 1) / from as u128
}

fn silence(n: usize) -> (v: Vec<i16>)
    ensures
        v@.len() == n,
        forall|i: int| 0 <= i < n ==> #[trigger] v@[i] == 0,
{
    let mut v: Vec<i16> = Vec::new();
    while v.len() < n
        invariant
            v@.len() <= n,
            forall|i: int| 0 <= i < v@.len() ==> #[trigger] v@[i] == 0,
        decreases n - v@.len(),
    {
        v.push(0);
    }
    v
}

/// Convert samples by linear interpolation, if both rates can be converted.
pub fn resample_simple(input: &[i16], from_rate: u32, to_rate: u32) -> (r: Option<ResampleStep>)
    ensures
        match r {
            Some(step) => {
                &&& supported(from_rate) && supported(to_rate)
                &&& if input@.len() == 0 || from_rate == to_rate {
                    step matches ResampleStep::Done(v) && v@ == input@
                } else if to_rate == 48000 {
                    step matches ResampleStep::Interpolate { len } && len == scaled_len(
                        input@.len() as int,
                        from_rate as int,
                        to_rate as int,
                    )
                } else {
                    step matches ResampleStep::Done(v) && v@ == interpolated(
                        input@,
                        from_rate as int,
                        to_rate as int,
                    )
                }
            },
            None => !supported(from_rate) || !supported(to_rate),
        },
{
    match AudioResampler::new(from_rate, to_rate, ResampleQuality::Linear) {
        Some(r) => Some(r.begin(input)),
        None => None,
    }
}

/// As many samples come out as were foretold.
pub proof fn law_length_foretold(r: AudioResampler, s: Seq<i16>)
    requires
        r.valid(),
        r.from_rate != r.to_rate,
    ensures
        interpolated(s, r.from_rate as int, r.to_rate as int).len() == r.converted_len(
            s.len() as int,
        ),
{
    lemma_supported(r.from_rate);
    lemma_supported(r.to_rate);
    lemma_position(s.len() as int, r.from_rate as int, r.to_rate as int, 0);
}

/// A longer stretch never becomes shorter, so what the filter gives for the
/// history and some samples has all that the samples become.
pub proof fn law_longer_stays_longer(n: int, more: int, from: int, to: int)
    requires
        n >= 0,
        more >= 0,
        from > 0,
        to > 0,
    ensures
        scaled_len(n + more, from, to) >= scaled_len(n, from, to) >= 0,
{
    lemma_position(n, from, to, 0);
    assert((n + more) * to + from - 1 >= n * to + from - 1) by (nonlinear_arith)
        requires
            more >= 0,
            to > 0,
    ;
    vstd::arithmetic::div_mod::lemma_div_is_ordered(
        n * to + from - 1,
        (n + more) * to + from - 1,
        from,
    );
}

/// As many samples come out of the sinc filter as were foretold, once `finish`
/// has taken them from what was filtered to the length that `begin` asks for.
pub proof fn law_filtered_length_foretold(r: AudioResampler, input: Seq<i16>, filtered: Seq<i16>)
    requires
        r.valid(),
        filtered.len() == r.converted_len(16 + input.len() as int),
    ensures
        r.converted_len(input.len() as int) <= filtered.len(),
        last_n(filtered, r.converted_len(input.len() as int) as nat).len() == r.converted_len(
            input.len() as int,
        ),
{
    lemma_supported(r.from_rate);
    lemma_supported(r.to_rate);
    law_longer_stays_longer(input.len() as int, 16, r.from_rate as int, r.to_rate as int);
}

/// Samples handed over in pieces leave the same history as all at once.
pub proof fn law_history_of_pieces(h: Seq<i16>, a: Seq<i16>, b: Seq<i16>)
    ensures
        last_n(last_n(h + a, h.len()) + b, h.len()) == last_n(h + (a + b), h.len()),
{
    assert(last_n(last_n(h + a, h.len()) + b, h.len()) =~= last_n(h + (a + b), h.len()));
}

/// Converting up and back down by whole factors keeps the length.
pub proof fn law_length_round_trip(up: AudioResampler, down: AudioResampler, n: int)
    requires
        up.valid(),
        down.valid(),
        up.from_rate == down.to_rate,
        up.to_rate == down.from_rate,
        up.to_rate % up.from_rate == 0,
        n >= 0,
    ensures
        down.converted_len(up.converted_len(n)) == n,
{
    let f = up.from_rate as int;
    let t = up.to_rate as int;
    let k = t / f;
    assert(t == k * f && k >= 1) by {
        vstd::arithmetic::div_mod::lemma_fundamental_div_mod(t, f);
        assert(t == f * k);
        assert(f * k == k * f) by (nonlinear_arith);
        if k < 1 {
            assert(k * f <= 0) by (nonlinear_arith)
                requires
                    k <= 0,
                    f > 0,
            ;
        }
    }
    if f != t {
        assert(n * t + f - 1 == (n * k) * f + (f - 1)) by (nonlinear_arith)
            requires
                t == k * f,
        ;
        vstd::arithmetic::div_mod::lemma_fundamental_div_mod_converse(
            n * t + f - 1,
            f,
            n * k,
            f - 1,
        );
        assert((n * k) * f + t - 1 == n * t + (t - 1)) by (nonlinear_arith)
            requires
                t == k * f,
        ;
        vstd::arithmetic::div_mod::lemma_fundamental_div_mod_converse(
            (n * k) * f + t - 1,
            t,
            n,
            t - 1,
        );
    }
}

} // verus!
