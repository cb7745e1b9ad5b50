//! Concealment of lost packets: the audio that it draws on, its pitch, and how
//! long it may go on. Roots, gain and fades are the caller's.

pub mod laws;

use crate::rtp::resampler;
use vstd::prelude::*;

verus! {

/// Samples kept: about 49 ms.
pub const HISTORY_LEN: usize = 390;

/// Shortest pitch period.
pub const PITCH_MIN: usize = 20;

/// Longest pitch period.
pub const PITCH_MAX: usize = 160;

/// Samples of a fade.
pub const OLA_WINDOW: usize = 16;

/// The last samples of a stream.
pub open spec fn latest(s: Seq<i16>, n: nat) -> Seq<i16> {
    if s.len() <= n {
        s
    } else {
        s.subrange(s.len() - n, s.len() as int)
    }
}

/// The last samples that were played, in a ring.
pub struct PlcHistory {
    pub ring: Vec<i16>,
    /// Where the next sample goes.
    pub pos: usize,
    /// How many samples there are.
    pub count: usize,
}

impl PlcHistory {
    /// The ring is whole.
    pub open spec fn valid(self) -> bool {
        self.ring@.len() == HISTORY_LEN && self.pos < HISTORY_LEN && self.count <= HISTORY_LEN
    }

    /// Where the sample that is `back` from the newest stands.
    pub open spec fn slot(self, back: int) -> int {
        if back < self.pos {
            self.pos - 1 - back
        } else {
            self.pos - 1 - back + HISTORY_LEN
        }
    }
}

impl View for PlcHistory {
    type V = Seq<i16>;

    /// The samples, oldest first.
    open spec fn view(&self) -> Seq<i16> {
        Seq::new(self.count as nat, |i: int| self.ring@[self.slot(self.count - 1 - i)])
    }
}

impl PlcHistory {
    /// An empty history.
    pub fn new() -> (h: PlcHistory)
        ensures
            h.valid(),
            h@ == Seq::<i16>::empty(),
    {
        let mut ring: Vec<i16> = Vec::new();
        while ring.len() < HISTORY_LEN
            invariant
                ring@.len() <= HISTORY_LEN,
            decreases HISTORY_LEN - ring@.len(),
        {
            ring.push(0);
        }
        let h = PlcHistory { ring, pos: 0, count: 0 };
        assert(h@ =~= Seq::<i16>::empty());
        h
    }

    /// Forget everything.
    pub fn reset(&mut self)
        ensures
            final(self).valid(),
            final(self)@ == Seq::<i16>::empty(),
    {
        *self = PlcHistory::new();
    }

    fn push(&mut self, x: i16)
        requires
            old(self).valid(),
        ensures
            final(self).valid(),
            final(self)@ == latest(old(self)@.push(x), HISTORY_LEN as nat),
    {
        let pos: usize = self.pos;
        self.ring.set(pos, x);
        self.pos = if pos + 1 == HISTORY_LEN {
            0
        } else {
            pos + 1
        };
        if self.count < HISTORY_LEN {
            self.count = self.count + 1;
        }
        assert(self@ =~= latest(old(self)@.push(x), HISTORY_LEN as nat));
    }

    /// Add samples; the oldest give way.
    pub fn append_history(&mut self, samples: &[i16])
        requires
            old(self).valid(),
        ensures
            final(self).valid(),
            final(self)@ == latest(old(self)@ + samples@, HISTORY_LEN as nat),
    {
        let mut i: usize = 0;
        assert(latest(self@ + samples@.take(0), HISTORY_LEN as nat) =~= self@);
        while i < samples.len()
            invariant
                i <= samples@.len(),
                self.valid(),
                self@ == latest(old(self)@ + samples@.take(i as int), HISTORY_LEN as nat),
            decreases samples@.len() - i,
        {
            self.push(samples[i]);
            i += 1;
            assert(self@ =~= latest(old(self)@ + samples@.take(i as int), HISTORY_LEN as nat));
        }
        assert(samples@.take(i as int) =~= samples@);
    }

    /// The newest samples, as many as there are up to `count`, oldest first.
    pub fn read_history_tail(&self, count: usize) -> (out: Vec<i16>)
        requires
            self.valid(),
        ensures
            out@ == latest(self@, count as nat),
    {
        let n: usize = if count < self.count {
            count
        } else {
            self.count
        };
        let start: usize = if self.pos >= n {
            self.pos - n
        } else {
            HISTORY_LEN - (n - self.pos)
        };
        let mut out: Vec<i16> = Vec::new();
        let mut i: usize = 0;
        while i < n
            invariant
                i <= n <= self.count,
                self.valid(),
                start == if self.pos >= n {
                    self.pos - n
                } else {
                    HISTORY_LEN - (n - self.pos)
                },
                out@.len() == i,
                forall|k: int|
                    0 <= k < i ==> #[trigger] out@[k] == self.ring@[self.slot(n - 1 - k)],
            decreases n - i,
        {
            let at: usize = if start + i >= HISTORY_LEN {
                start + i - HISTORY_LEN
            } else {
                start + i
            };
            out.push(self.ring[at]);
            i += 1;
        }
        assert(out@ =~= latest(self@, count as nat));
        out
    }

    /// How many samples there are.
    pub fn len(&self) -> (n: usize)
        requires
            self.valid(),
        ensures
            n == self@.len(),
    {
        self.count
    }

    /// The last pitch period and the one before it. Where the history holds
    /// less than two, the last is taken twice; where it holds less than one,
    /// all of it.
    pub fn last_periods(&self, period: usize) -> (r: (Vec<i16>, Vec<i16>))
        requires
            self.valid(),
            period <= PITCH_MAX,
        ensures
            r.1@ == latest(self@, period as nat),
            r.0@ == if self@.len() >= 2 * period {
                latest(self@, 2 * period as nat).subrange(0, period as int)
            } else {
                r.1@
            },
    {
        let last = self.read_history_tail(period);
        let both = self.read_history_tail(period * 2);
        if both.len() >= period * 2 {
            let prev: Vec<i16> = vstd::slice::slice_to_vec(
                vstd::slice::slice_subrange(both.as_slice(), 0, period),
            );
            (prev, last)
        } else {
            let prev: Vec<i16> = vstd::slice::slice_to_vec(last.as_slice());
            (prev, last)
        }
    }
}

/// A frame size kept within the range of pitch periods.
pub open spec fn usual_pitch(samples_per_packet: usize) -> usize {
    if samples_per_packet < PITCH_MIN {
        PITCH_MIN
    } else if samples_per_packet > PITCH_MAX {
        PITCH_MAX
    } else {
        samples_per_packet
    }
}

/// The pitch period taken where none is heard.
pub fn default_pitch(samples_per_packet: usize) -> (p: usize)
    ensures
        p == usual_pitch(samples_per_packet),
{
    if samples_per_packet < PITCH_MIN {
        PITCH_MIN
    } else if samples_per_packet > PITCH_MAX {
        PITCH_MAX
    } else {
        samples_per_packet
    }
}

// ---------------------------------------------------------------------------
// Pitch
// ---------------------------------------------------------------------------

/// The sum of the products of samples, pair by pair.
pub open spec fn dot(a: Seq<i16>, b: Seq<i16>) -> int
    decreases a.len(),
{
    if a.len() == 0 {
        0
    } else {
        dot(a.drop_last(), b.drop_last()) + a.last() * b.last()
    }
}

/// How the audio compares with itself one lag earlier.
#[derive(Debug, Clone, Copy, PartialEq, Eq, Structural)]
pub struct Correlation {
    /// The lag in samples.
    pub lag: usize,
    /// The product of both stretches.
    pub cross: i64,
    /// The energy of the later stretch.
    pub energy_win: i64,
    /// The energy of the earlier one.
    pub energy_ref: i64,
}

/// The stretch that is looked at, and the one a lag before it: both as long as
/// the lag, they meet in the middle of `buf`.
pub open spec fn correlation_at(buf: Seq<i16>, lag: int) -> Correlation {
    let win = buf.subrange(PITCH_MAX as int, PITCH_MAX + lag);
    let before = buf.subrange(PITCH_MAX - lag, PITCH_MAX as int);
    Correlation {
        lag: lag as usize,
        cross: dot(win, before) as i64,
        energy_win: dot(win, win) as i64,
        energy_ref: dot(before, before) as i64,
    }
}

/// The correlations of the first `n` lags, shortest first, without those where
/// one stretch is silent.
pub open spec fn correlations_upto(buf: Seq<i16>, n: nat) -> Seq<Correlation>
    decreases n,
{
    if n == 0 {
        Seq::empty()
    } else {
        let before = correlations_upto(buf, (n - 1) as nat);
        let c = correlation_at(buf, PITCH_MIN + n - 1);
        if c.energy_win > 0 && c.energy_ref > 0 {
            before.push(c)
        } else {
            before
        }
    }
}

/// The correlations that tell of the pitch: none where there is too little
/// audio, or its end is silent.
pub open spec fn correlations_of(buf: Seq<i16>) -> Seq<Correlation> {
    let win = buf.subrange(PITCH_MAX as int, 2 * PITCH_MAX as int);
    if buf.len() != 2 * PITCH_MAX || dot(win, win) == 0 {
        Seq::empty()
    } else {
        correlations_upto(buf, (PITCH_MAX - PITCH_MIN + 1) as nat)
    }
}

proof fn lemma_product(a: i16, b: i16)
    by (nonlinear_arith)
    ensures
        -0x4000_0000 <= a * b <= 0x4000_0000,
{
}

fn dot_product(buf: &[i16], i: usize, j: usize, n: usize) -> (sum: i64)
    requires
        n <= PITCH_MAX,
        i + n <= buf@.len(),
        j + n <= buf@.len(),
    ensures
        sum == dot(buf@.subrange(i as int, i + n), buf@.subrange(j as int, j + n)),
{
    let len: usize = buf.len();
    let mut sum: i64 = 0;
    let mut k: usize = 0;
    while k < n
        invariant
            k <= n <= PITCH_MAX,
            len == buf@.len(),
            i + n <= buf@.len(),
            j + n <= buf@.len(),
            sum == dot(buf@.subrange(i as int, i + k), buf@.subrange(j as int, j + k)),
            -0x4000_0000 * k <= sum <= 0x4000_0000 * k,
        decreases n - k,
    {
        let a: i16 = buf[i + k];
        let b: i16 = buf[j + k];
        proof {
            lemma_product(a, b);
            let x = buf@.subrange(i as int, i + k + 1);
            let y = buf@.subrange(j as int, j + k + 1);
            assert(x.drop_last() =~= buf@.subrange(i as int, i + k));
            assert(y.drop_last() =~= buf@.subrange(j as int, j + k));
        }
        sum += a as i64 * b as i64;
        k += 1;
    }
    sum
}

/// The correlations that tell of the pitch of the last two longest periods.
pub fn pitch_correlations(buf: &[i16]) -> (out: Vec<Correlation>)
    ensures
        out@ == correlations_of(buf@),
{
    let mut out: Vec<Correlation> = Vec::new();
    if buf.len() != 2 * PITCH_MAX || dot_product(buf, PITCH_MAX, PITCH_MAX, PITCH_MAX) == 0 {
        return out;
    }
    let mut lag: usize = PITCH_MIN;
    while lag <= PITCH_MAX
        invariant
            PITCH_MIN <= lag <= PITCH_MAX + 1,
            buf@.len() == 2 * PITCH_MAX,
            out@ == correlations_upto(buf@, (lag - PITCH_MIN) as nat),
        decreases PITCH_MAX + 1 - lag,
    {
        let c = Correlation {
            lag,
            cross: dot_product(buf, PITCH_MAX, PITCH_MAX - lag, lag),
            energy_win: dot_product(buf, PITCH_MAX, PITCH_MAX, lag),
            energy_ref: dot_product(buf, PITCH_MAX - lag, PITCH_MAX - lag, lag),
        };
        assert(c == correlation_at(buf@, lag as int));
        if c.energy_win > 0 && c.energy_ref > 0 {
            out.push(c);
        }
        lag += 1;
    }
    out
}

/// A period that the audio may have, by numbers that order as correlations do.
#[derive(Debug, Clone, Copy, PartialEq, Eq, Structural)]
pub struct PitchCandidate {
    pub period: usize,
    /// For the correlation.
    pub rank: u64,
    /// For what a longer period must exceed to be taken instead.
    pub margin: u64,
}

/// The candidate taken: the first strong one, unless a longer one exceeds its
/// margin; and so on.
pub open spec fn picked(cs: Seq<PitchCandidate>, strong: u64) -> Option<PitchCandidate>
    decreases cs.len(),
{
    if cs.len() == 0 {
        None
    } else {
        let c = cs.last();
        match picked(cs.drop_last(), strong) {
            None => if c.rank >= strong {
                Some(c)
            } else {
                None
            },
            Some(b) => if c.rank > b.margin {
                Some(c)
            } else {
                Some(b)
            },
        }
    }
}

/// The pitch period among candidates, shortest first; the usual one where none
/// is strong.
pub fn pick_period(candidates: &[PitchCandidate], strong: u64, usual: usize) -> (period: usize)
    ensures
        period == match picked(candidates@, strong) {
            Some(c) => c.period,
            None => usual,
        },
{
    let mut best: Option<PitchCandidate> = None;
    let mut i: usize = 0;
    assert(candidates@.take(0) =~= Seq::empty());
    while i < candidates.len()
        invariant
            i <= candidates@.len(),
            best == picked(candidates@.take(i as int), strong),
        decreases candidates@.len() - i,
    {
        let c = candidates[i];
        assert(candidates@.take(i + 1).drop_last() =~= candidates@.take(i as int));
        best = match best {
            None => if c.rank >= strong {
                Some(c)
            } else {
                None
            },
            Some(b) => if c.rank > b.margin {
                Some(c)
            } else {
                Some(b)
            },
        };
        i += 1;
    }
    assert(candidates@.take(i as int) =~= candidates@);
    match best {
        Some(c) => c.period,
        None => usual,
    }
}

/// A strong period is kept where no longer one exceeds its margin: multiples of
/// it, which fit as well, are not taken for it.
pub proof fn law_shortest_period_kept(cs: Seq<PitchCandidate>, strong: u64, n: int)
    requires
        0 <= n < cs.len(),
        cs[n].rank >= strong,
        forall|i: int| 0 <= i < n ==> (#[trigger] cs[i]).rank < strong,
        forall|i: int| n < i < cs.len() ==> (#[trigger] cs[i]).rank <= cs[n].margin,
    ensures
        picked(cs, strong) == Some(cs[n]),
    decreases cs.len(),
{
    let front = cs.drop_last();
    if n == cs.len() - 1 {
        law_no_strong_period(front, strong);
    } else {
        assert(front[n] == cs[n]);
        law_shortest_period_kept(front, strong, n);
    }
}

/// Without a strong period there is none.
pub proof fn law_no_strong_period(cs: Seq<PitchCandidate>, strong: u64)
    requires
        forall|i: int| 0 <= i < cs.len() ==> (#[trigger] cs[i]).rank < strong,
    ensures
        picked(cs, strong) is None,
    decreases cs.len(),
{
    if cs.len() > 0 {
        assert(cs.last() == cs[cs.len() - 1]);
        law_no_strong_period(cs.drop_last(), strong);
    }
}

// ---------------------------------------------------------------------------
// Gaps
// ---------------------------------------------------------------------------

/// The longest gap that is filled, in milliseconds.
pub const MAX_CONCEAL_MS: u64 = 60;

/// Frames in the longest gap that is filled: as many as begin within it, at
/// least one; three where a frame has no samples.
pub open spec fn frames_in_gap(samples_per_packet: usize, sample_rate: u32) -> int {
    let rate = if sample_rate > 0 {
        sample_rate as int
    } else {
        8000
    };
    let frame = samples_per_packet * 1000;
    if samples_per_packet == 0 {
        3
    } else {
        (MAX_CONCEAL_MS * rate + frame - 1) / frame
    }
}

/// What fills a gap.
#[derive(Debug, Clone, Copy, PartialEq, Eq, Structural)]
pub enum ConcealStep {
    /// Nothing: no samples are asked for.
    Nothing,
    /// Silence: the gap has lasted too long.
    Silence,
    /// The last pitch period again; `first` in a gap fades in from the last
    /// good frame.
    Repeat { first: bool },
}

/// Counts the frames of a gap.
#[derive(Debug, Clone, Copy, PartialEq, Eq, Structural)]
pub struct ConcealCounter {
    /// Frames concealed in a row.
    pub conceal_count: usize,
    /// Frames that may be.
    pub max_conceal_frames: usize,
}

impl ConcealCounter {
    /// Start to count.
    pub fn new(max_conceal_frames: usize) -> (c: ConcealCounter)
        ensures
            c == (ConcealCounter { conceal_count: 0, max_conceal_frames }),
    {
        ConcealCounter { conceal_count: 0, max_conceal_frames }
    }

    /// Start to count frames of so many samples, at one of the rates of
    /// telephone audio; a rate of zero counts as 8000. At another rate the count
    /// is a rounded quotient, which the caller has to find and start with.
    pub fn for_frames(samples_per_packet: usize, sample_rate: u32) -> (r: Option<ConcealCounter>)
        ensures
            match r {
                Some(c) => {
                    &&& samples_per_packet == 0 || sample_rate == 0 || resampler::supported(sample_rate)
                    &&& c.conceal_count == 0
                    &&& c.max_conceal_frames == frames_in_gap(samples_per_packet, sample_rate)
                    &&& c.max_conceal_frames >= 1
                },
                None => samples_per_packet > 0 && sample_rate > 0 && !resampler::supported(sample_rate),
            },
    {
        if samples_per_packet == 0 {
            return Some(ConcealCounter::new(3));
        }
        if sample_rate > 0 && !resampler::is_supported_rate(sample_rate) {
            return None;
        }
        let rate: u128 = if sample_rate > 0 {
            sample_rate as u128
        } else {
            8000
        };
        let frame: u128 = samples_per_packet as u128 * 1000;
        let frames: u128 = (MAX_CONCEAL_MS as u128 * rate + frame - 1) / frame;
        proof {
            lemma_frames(MAX_CONCEAL_MS * rate, frame as int);
        }
        Some(ConcealCounter::new(frames as usize))
    }

    /// What fills the next `n` samples of a gap.
    pub fn conceal(&mut self, n: usize) -> (step: ConcealStep)
        requires
            old(self).conceal_count < usize::MAX,
        ensures
            final(self).max_conceal_frames == old(self).max_conceal_frames,
            final(self).conceal_count == if n == 0 {
                old(self).conceal_count as int
            } else {
                old(self).conceal_count + 1
            },
            step == if n == 0 {
                ConcealStep::Nothing
            } else if final(self).conceal_count > old(self).max_conceal_frames {
                ConcealStep::Silence
            } else {
                ConcealStep::Repeat { first: old(self).conceal_count == 0 }
            },
    {
        if n == 0 {
            return ConcealStep::Nothing;
        }
        self.conceal_count = self.conceal_count + 1;
        if self.conceal_count > self.max_conceal_frames {
            ConcealStep::Silence
        } else {
            ConcealStep::Repeat { first: self.conceal_count == 1 }
        }
    }

    /// A good frame ends the gap; says whether there was one.
    pub fn recover(&mut self) -> (was_concealing: bool)
        ensures
            was_concealing == (old(self).conceal_count > 0),
            *final(self) == (ConcealCounter { conceal_count: 0, ..*old(self) }),
    {
        let r: bool = self.conceal_count > 0;
        self.conceal_count = 0;
        r
    }
}

proof fn lemma_frames(total: int, frame: int)
    requires
        1 <= total <= 0xFFFF_FFFF * 60,
        frame >= 1000,
    ensures
        1 <= (total + frame - 1) / frame <= 0xFFFF_FFFF,
{
    assert(1 <= (total + frame - 1) / frame <= 0xFFFF_FFFF) by (nonlinear_arith)
        requires
            1 <= total <= 0xFFFF_FFFF * 60,
            frame >= 1000,
    ;
}

/// Samples added in pieces leave the same history as all at once.
pub proof fn law_history_of_pieces(h: Seq<i16>, a: Seq<i16>, b: Seq<i16>, n: nat)
    ensures
        latest(latest(h + a, n) + b, n) == latest(h + (a + b), n),
{
    assert(latest(latest(h + a, n) + b, n) =~= latest(h + (a + b), n));
}

} // verus!
