//! What concealment draws on.

use crate::rtp::plc;
use crate::rtp::plc::PitchCandidate;
use vstd::prelude::*;

verus! {

/// The newest samples: counted from the end, they are those of the stream, and
/// as many as there are up to the number asked for.
pub proof fn law_newest(s: Seq<i16>, n: nat, back: int)
    requires
        0 <= back < s.len(),
        back < n,
    ensures
        ({
            let t = plc::latest(s, n);
            &&& back < t.len() <= n
            &&& t.len() <= s.len()
            &&& t[t.len() - 1 - back] == s[s.len() - 1 - back]
        }),
{
}

/// The usual pitch is that of a frame, between 20 and 160 samples.
pub proof fn law_usual_pitch(n: usize)
    ensures
        20 <= plc::usual_pitch(n) <= 160,
        20 <= n <= 160 ==> plc::usual_pitch(n) == n,
        n < 20 ==> plc::usual_pitch(n) == 20,
        n > 160 ==> plc::usual_pitch(n) == 160,
{
}

/// A product of stretches adds up that of their samples.
pub proof fn law_product(a: Seq<i16>, b: Seq<i16>, x: i16, y: i16)
    ensures
        plc::dot(Seq::empty(), Seq::empty()) == 0,
        plc::dot(a.push(x), b.push(y)) == plc::dot(a, b) + x * y,
{
    assert(a.push(x).drop_last() =~= a);
    assert(b.push(y).drop_last() =~= b);
}

proof fn lemma_energy(a: Seq<i16>)
    ensures
        0 <= plc::dot(a, a) <= 0x4000_0000 * a.len(),
        plc::dot(a, a) == 0 <==> forall|i: int| 0 <= i < a.len() ==> #[trigger] a[i] == 0,
    decreases a.len(),
{
    if a.len() > 0 {
        let t = a.drop_last();
        lemma_energy(t);
        let x = a.last();
        assert(0 <= x * x <= 0x4000_0000 && (x * x == 0 <==> x == 0)) by (nonlinear_arith)
            requires
                -32768 <= x <= 32767,
        ;
        assert forall|i: int| 0 <= i < t.len() implies #[trigger] t[i] == a[i] by {}
        if plc::dot(a, a) == 0 {
            assert forall|i: int| 0 <= i < a.len() implies #[trigger] a[i] == 0 by {
                if i < t.len() {
                    assert(t[i] == 0);
                }
            }
        }
        if forall|i: int| 0 <= i < a.len() ==> #[trigger] a[i] == 0 {
            assert(a[a.len() - 1] == 0);
            assert forall|i: int| 0 <= i < t.len() implies #[trigger] t[i] == 0 by {
                assert(a[i] == 0);
            }
        }
    }
}

/// Whether samples from a position on are silent.
pub open spec fn is_silent(buf: Seq<i16>, from: int, to: int) -> bool {
    forall|i: int| from <= i < to ==> #[trigger] buf[i] == 0
}

proof fn lemma_silent(buf: Seq<i16>, from: int, to: int)
    requires
        0 <= from <= to <= buf.len(),
        to - from <= 160,
    ensures
        ({
            let a = buf.subrange(from, to);
            &&& 0 <= plc::dot(a, a) <= i64::MAX
            &&& plc::dot(a, a) == 0 <==> is_silent(buf, from, to)
        }),
{
    let a = buf.subrange(from, to);
    lemma_energy(a);
    if plc::dot(a, a) == 0 {
        assert forall|i: int| from <= i < to implies #[trigger] buf[i] == 0 by {
            assert(a[i - from] == 0);
        }
    }
    if is_silent(buf, from, to) {
        assert forall|i: int| 0 <= i < a.len() implies #[trigger] a[i] == 0 by {
            assert(buf[from + i] == 0);
        }
    }
}

/// A correlation looks at as many samples behind the middle as the lag is long,
/// and at as many before it. Its energies are zero where these are silent, and
/// where the audio repeats after the lag, product and energies are the same.
pub proof fn law_correlation(buf: Seq<i16>, lag: int)
    requires
        buf.len() == 320,
        20 <= lag <= 160,
    ensures
        ({
            let c = plc::correlation_at(buf, lag);
            &&& c.lag == lag
            &&& c.energy_win >= 0
            &&& c.energy_ref >= 0
            &&& c.energy_win == 0 <==> is_silent(buf, 160, 160 + lag)
            &&& c.energy_ref == 0 <==> is_silent(buf, 160 - lag, 160)
            &&& (forall|i: int| 0 <= i < lag ==> #[trigger] buf[160 + i] == buf[160 - lag + i]) ==> c.cross
                == c.energy_win && c.cross == c.energy_ref
        }),
{
    lemma_silent(buf, 160, 160 + lag);
    lemma_silent(buf, 160 - lag, 160);
    let win = buf.subrange(160, 160 + lag);
    let before = buf.subrange(160 - lag, 160);
    if forall|i: int| 0 <= i < lag ==> #[trigger] buf[160 + i] == buf[160 - lag + i] {
        assert forall|i: int| 0 <= i < lag implies #[trigger] win[i] == before[i] by {
            assert(buf[160 + i] == buf[160 - lag + i]);
        }
        assert(win =~= before);
    }
}

/// Where the audio turns over after the lag, the product is the energy, less
/// than none.
pub proof fn law_opposite_correlation(buf: Seq<i16>, lag: int)
    requires
        buf.len() == 320,
        20 <= lag <= 160,
        forall|i: int| 0 <= i < lag ==> #[trigger] buf[160 + i] == -buf[160 - lag + i],
    ensures
        plc::correlation_at(buf, lag).cross == -plc::correlation_at(buf, lag).energy_win,
{
    let win = buf.subrange(160, 160 + lag);
    let before = buf.subrange(160 - lag, 160);
    assert forall|i: int| 0 <= i < lag implies #[trigger] win[i] == -before[i] by {
        assert(buf[160 + i] == -buf[160 - lag + i]);
    }
    lemma_opposite(win, before);
    lemma_silent(buf, 160, 160 + lag);
}

proof fn lemma_opposite(a: Seq<i16>, b: Seq<i16>)
    requires
        a.len() == b.len(),
        forall|i: int| 0 <= i < a.len() ==> #[trigger] a[i] == -b[i],
    ensures
        plc::dot(a, b) == -plc::dot(a, a),
    decreases a.len(),
{
    if a.len() > 0 {
        let s = a.drop_last();
        let t = b.drop_last();
        assert forall|i: int| 0 <= i < s.len() implies #[trigger] s[i] == -t[i] by {
            assert(a[i] == -b[i]);
        }
        lemma_opposite(s, t);
        let x = a.last();
        let y = b.last();
        assert(a[a.len() - 1] == -b[b.len() - 1]);
        assert(x * y == -(x * x)) by (nonlinear_arith)
            requires
                x == -y,
        ;
    }
}

/// Of the lags from 20 to 160, shortest first, those are compared where neither
/// stretch is silent.
pub proof fn law_lags_compared(buf: Seq<i16>)
    requires
        buf.len() == 320,
        !is_silent(buf, 160, 320),
    ensures
        ({
            let r = plc::correlations_of(buf);
            &&& forall|i: int|
                0 <= i < r.len() ==> 20 <= (#[trigger] r[i]).lag <= 160 && r[i]
                    == plc::correlation_at(buf, r[i].lag as int)
            &&& forall|i: int, j: int|
                0 <= i < j < r.len() ==> (#[trigger] r[i]).lag < (#[trigger] r[j]).lag
            &&& forall|lag: int|
                20 <= lag <= 160 ==> (r.contains(#[trigger] plc::correlation_at(buf, lag))
                    <==> !is_silent(buf, 160, 160 + lag) && !is_silent(buf, 160 - lag, 160))
        }),
{
    lemma_silent(buf, 160, 320);
    lemma_lags(buf, 141);
    let r = plc::correlations_of(buf);
    assert(r == plc::correlations_upto(buf, 141));
    assert forall|lag: int| 20 <= lag <= 160 implies (r.contains(
        #[trigger] plc::correlation_at(buf, lag),
    ) <==> !is_silent(buf, 160, 160 + lag) && !is_silent(buf, 160 - lag, 160)) by {
        assert(lag < 20 + 141);
    }
}

proof fn lemma_lags(buf: Seq<i16>, n: nat)
    requires
        buf.len() == 320,
        n <= 141,
    ensures
        ({
            let r = plc::correlations_upto(buf, n);
            &&& forall|i: int|
                0 <= i < r.len() ==> 20 <= (#[trigger] r[i]).lag < 20 + n && r[i]
                    == plc::correlation_at(buf, r[i].lag as int)
            &&& forall|i: int, j: int|
                0 <= i < j < r.len() ==> (#[trigger] r[i]).lag < (#[trigger] r[j]).lag
            &&& forall|lag: int|
                20 <= lag < 20 + n ==> (r.contains(#[trigger] plc::correlation_at(buf, lag))
                    <==> !is_silent(buf, 160, 160 + lag) && !is_silent(buf, 160 - lag, 160))
        }),
    decreases n,
{
    if n > 0 {
        let before = plc::correlations_upto(buf, (n - 1) as nat);
        let r = plc::correlations_upto(buf, n);
        let l = 20 + n - 1;
        lemma_lags(buf, (n - 1) as nat);
        law_correlation(buf, l);
        let c = plc::correlation_at(buf, l);
        assert forall|lag: int| 20 <= lag < 20 + n implies (r.contains(
            #[trigger] plc::correlation_at(buf, lag),
        ) <==> !is_silent(buf, 160, 160 + lag) && !is_silent(buf, 160 - lag, 160)) by {
            let x = plc::correlation_at(buf, lag);
            law_correlation(buf, lag);
            if before.contains(x) {
                let k = choose|k: int| 0 <= k < before.len() && before[k] == x;
                assert(r[k] == x);
            }
            if r.contains(x) {
                let k = choose|k: int| 0 <= k < r.len() && r[k] == x;
                if k < before.len() {
                    assert(before[k] == x);
                }
            }
            if lag == l && c.energy_win > 0 && c.energy_ref > 0 {
                assert(r[before.len() as int] == x);
            }
        }
    }
}

/// Of too little audio, or where its end is silent, nothing is compared.
pub proof fn law_silence_not_compared(buf: Seq<i16>)
    requires
        buf.len() != 320 || is_silent(buf, 160, 320),
    ensures
        plc::correlations_of(buf).len() == 0,
{
    if buf.len() == 320 {
        lemma_silent(buf, 160, 320);
    }
}

/// A longer period takes the place of what was found if it exceeds its margin,
/// and the first strong one that of nothing.
pub proof fn law_longer_period_taken(cs: Seq<PitchCandidate>, c: PitchCandidate, strong: u64)
    ensures
        ({
            let before = plc::picked(cs, strong);
            let after = plc::picked(cs.push(c), strong);
            &&& before is None ==> (after == Some(c) <==> c.rank >= strong)
            &&& before is None && c.rank < strong ==> after is None
            &&& before is Some && c.rank > before->Some_0.margin ==> after == Some(c)
            &&& before is Some && c.rank <= before->Some_0.margin ==> after == before
        }),
{
    assert(cs.push(c).drop_last() =~= cs);
}

/// A gap is filled for 60 ms: as many frames as it takes for that long, and no
/// more.
pub proof fn law_gap_filled(samples_per_packet: usize, sample_rate: u32)
    requires
        samples_per_packet > 0,
        sample_rate > 0,
    ensures
        ({
            let frames = plc::frames_in_gap(samples_per_packet, sample_rate);
            &&& frames * samples_per_packet * 1000 >= 60 * sample_rate
            &&& (frames - 1) * samples_per_packet * 1000 < 60 * sample_rate
        }),
{
    let f = samples_per_packet * 1000;
    let total = 60 * sample_rate;
    let frames = plc::frames_in_gap(samples_per_packet, sample_rate);
    vstd::arithmetic::div_mod::lemma_fundamental_div_mod(total + f - 1, f);
    assert(f * frames == frames * samples_per_packet * 1000) by (nonlinear_arith)
        requires
            f == samples_per_packet * 1000,
    ;
    assert((frames - 1) * samples_per_packet * 1000 == f * frames - f) by (nonlinear_arith)
        requires
            f == samples_per_packet * 1000,
    ;
}

/// Without a rate, a gap is that of audio at 8000 samples a second; without
/// samples, three frames.
pub proof fn law_gap_of_unknown(samples_per_packet: usize, sample_rate: u32)
    ensures
        plc::frames_in_gap(samples_per_packet, 0) == plc::frames_in_gap(samples_per_packet, 8000),
        plc::frames_in_gap(0, sample_rate) == 3,
{
}

} // verus!
