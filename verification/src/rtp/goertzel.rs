//! Tones in decoded audio: which digit a block of samples holds, and when a
//! digit counts. The powers of the tones are the caller's.

pub mod laws;

use vstd::prelude::*;

verus! {

/// Blocks in a row that make a digit.
pub const MIN_DETECTION_FRAMES: u32 = 2;

/// A digit heard in the audio.
#[derive(Debug, Clone, Copy, PartialEq, Eq, Structural)]
pub struct InbandDtmf {
    pub digit: char,
    pub duration_ms: u32,
}

/// The keypad, row by row.
pub open spec fn keypad(row: int, col: int) -> char {
    let r = if row > 3 {
        3
    } else {
        row
    };
    let c = if col > 3 {
        3
    } else {
        col
    };
    seq!['1', '2', '3', 'A', '4', '5', '6', 'B', '7', '8', '9', 'C', '*', '0', '#', 'D'][4 * r + c]
}

/// The key of a row and a column.
pub fn dtmf_char(row: usize, col: usize) -> (c: char)
    ensures
        c == keypad(row as int, col as int),
{
    let r: usize = if row > 3 {
        3
    } else {
        row
    };
    let c: usize = if col > 3 {
        3
    } else {
        col
    };
    let keys: [char; 16] = [
        '1',
        '2',
        '3',
        'A',
        '4',
        '5',
        '6',
        'B',
        '7',
        '8',
        '9',
        'C',
        '*',
        '0',
        '#',
        'D',
    ];
    assert(keys@ =~= seq![
        '1',
        '2',
        '3',
        'A',
        '4',
        '5',
        '6',
        'B',
        '7',
        '8',
        '9',
        'C',
        '*',
        '0',
        '#',
        'D',
    ]);
    keys[4 * r + c]
}

/// The power of a tone in a block, by numbers that order as powers do.
#[derive(Debug, Clone, Copy, PartialEq, Eq, Structural)]
pub struct Tone {
    /// For the power.
    pub power: u64,
    /// For four times the power, which is 6 dB above it.
    pub above: u64,
}

/// The strongest of four tones, the first of equals.
pub open spec fn is_strongest(tones: Seq<Tone>, i: int) -> bool {
    &&& 0 <= i < 4
    &&& forall|j: int| 0 <= j < 4 ==> (#[trigger] tones[j]).power <= tones[i].power
    &&& forall|j: int| 0 <= j < i ==> (#[trigger] tones[j]).power < tones[i].power
}

/// A tone that is more than 6 dB above each of the others.
pub open spec fn stands_out(tones: Seq<Tone>, i: int) -> bool {
    forall|j: int| 0 <= j < 4 && j != i ==> tones[i].power > (#[trigger] tones[j]).above
}

/// The strongest of four tones, the first of equals.
pub fn strongest(tones: &[Tone; 4]) -> (i: usize)
    ensures
        is_strongest(tones@, i as int),
{
    let mut best: usize = 0;
    let mut k: usize = 1;
    while k < 4
        invariant
            best < k <= 4,
            forall|j: int| 0 <= j < k ==> (#[trigger] tones@[j]).power <= tones@[best as int].power,
            forall|j: int|
                0 <= j < best ==> (#[trigger] tones@[j]).power < tones@[best as int].power,
        decreases 4 - k,
    {
        if tones[k].power > tones[best].power {
            best = k;
        }
        k += 1;
    }
    best
}

fn is_clear(tones: &[Tone; 4], i: usize) -> (r: bool)
    requires
        i < 4,
    ensures
        r == stands_out(tones@, i as int),
{
    let mut k: usize = 0;
    while k < 4
        invariant
            k <= 4,
            i < 4,
            forall|j: int|
                0 <= j < k && j != i ==> tones@[i as int].power > (#[trigger] tones@[j]).above,
        decreases 4 - k,
    {
        if k != i && tones[i].power <= tones[k].above {
            assert(tones@[i as int].power <= tones@[k as int].above);
            return false;
        }
        k += 1;
    }
    true
}

/// The digit of a block: the key of the strongest row and column, where both are
/// loud enough, neither is too far above the other, and each stands out.
pub fn block_digit(rows: &[Tone; 4], cols: &[Tone; 4], loud: bool, balanced: bool) -> (r: Option<
    char,
>)
    ensures
        match r {
            Some(c) => {
                &&& loud && balanced
                &&& exists|row: int, col: int|
                    #![trigger keypad(row, col)]
                    is_strongest(rows@, row) && is_strongest(cols@, col) && stands_out(rows@, row)
                        && stands_out(cols@, col) && c == keypad(row, col)
            },
            None => loud && balanced ==> forall|row: int, col: int|
                #![trigger keypad(row, col)]
                is_strongest(rows@, row) && is_strongest(cols@, col) ==> !(stands_out(rows@, row)
                    && stands_out(cols@, col)),
        },
{
    let row: usize = strongest(rows);
    let col: usize = strongest(cols);
    if loud && balanced && is_clear(rows, row) && is_clear(cols, col) {
        Some(dtmf_char(row, col))
    } else {
        proof {
            assert forall|i: int, j: int|
                #![trigger keypad(i, j)]
                is_strongest(rows@, i) && is_strongest(cols@, j) implies i == row && j == col by {
                law_one_strongest(rows@, i, row as int);
                law_one_strongest(cols@, j, col as int);
            }
        }
        None
    }
}

/// Only one tone is the strongest.
pub proof fn law_one_strongest(tones: Seq<Tone>, i: int, j: int)
    requires
        is_strongest(tones, i),
        is_strongest(tones, j),
    ensures
        i == j,
{
    assert(tones[i].power <= tones[j].power && tones[j].power <= tones[i].power);
}

/// Follows blocks of audio, each with a digit's tones or without, and says which
/// digits were held long enough.
pub struct DigitTracker {
    pub block_size: usize,
    pub sample_rate: u32,
    /// Samples of the block that is being filled.
    pub sample_pos: usize,
    /// The digit whose tones sound.
    pub current_digit: Option<char>,
    pub detection_count: u32,
    pub silence_count: u32,
    pub last_reported: Option<char>,
    /// Whether the digit has sounded long enough.
    pub digit_reported: bool,
    pub detected: Vec<InbandDtmf>,
}

/// The mathematical content of a tracker.
#[verifier::ext_equal]
pub struct TrackerModel {
    pub block_size: usize,
    pub sample_rate: u32,
    pub sample_pos: usize,
    pub current_digit: Option<char>,
    pub detection_count: u32,
    pub silence_count: u32,
    pub last_reported: Option<char>,
    pub digit_reported: bool,
    pub detected: Seq<InbandDtmf>,
}

impl View for DigitTracker {
    type V = TrackerModel;

    open spec fn view(&self) -> TrackerModel {
        TrackerModel {
            block_size: self.block_size,
            sample_rate: self.sample_rate,
            sample_pos: self.sample_pos,
            current_digit: self.current_digit,
            detection_count: self.detection_count,
            silence_count: self.silence_count,
            last_reported: self.last_reported,
            digit_reported: self.digit_reported,
            detected: self.detected@,
        }
    }
}

impl TrackerModel {
    /// Nothing heard.
    pub open spec fn fresh(sample_rate: u32, block_size: usize) -> TrackerModel {
        TrackerModel {
            block_size,
            sample_rate,
            sample_pos: 0,
            current_digit: None,
            detection_count: 0,
            silence_count: 0,
            last_reported: None,
            digit_reported: false,
            detected: Seq::empty(),
        }
    }

    /// A digit that sounds has been counted, and silence only behind one.
    pub open spec fn valid(self) -> bool {
        &&& self.sample_rate > 0
        &&& self.current_digit is Some ==> self.detection_count >= 1 && self.silence_count == 0
        &&& self.digit_reported ==> self.current_digit is Some && self.detection_count
            >= MIN_DETECTION_FRAMES
    }

    /// The counts have room for a block.
    pub open spec fn has_room(self) -> bool {
        &&& self.detection_count < u32::MAX - 1
        &&& (self.detection_count + 1) * self.block_size * 1000 <= u64::MAX
    }

    /// How long a number of blocks lasts.
    pub open spec fn blocks_ms(self, blocks: int) -> u32 {
        ((blocks * self.block_size * 1000 / (self.sample_rate as int)) % 0x1_0000_0000) as u32
    }

    /// A block with a digit's tones.
    pub open spec fn sounded(self, digit: char) -> TrackerModel {
        let count = if self.current_digit == Some(digit) {
            (self.detection_count + 1) as u32
        } else {
            1
        };
        let held = self.current_digit == Some(digit) && self.digit_reported;
        let long = count >= MIN_DETECTION_FRAMES;
        TrackerModel {
            silence_count: 0,
            current_digit: Some(digit),
            detection_count: count,
            digit_reported: held || long,
            last_reported: if long && !held {
                Some(digit)
            } else {
                self.last_reported
            },
            ..self
        }
    }

    /// A block without: the digit has ended, and counts if it was long enough.
    pub open spec fn silent(self) -> TrackerModel {
        match self.current_digit {
            None => self,
            Some(digit) => TrackerModel {
                silence_count: (self.silence_count + 1) as u32,
                current_digit: None,
                detection_count: 0,
                digit_reported: false,
                detected: if self.digit_reported {
                    self.detected.push(
                        InbandDtmf {
                            digit,
                            duration_ms: self.blocks_ms(
                                self.detection_count + self.silence_count + 1,
                            ),
                        },
                    )
                } else {
                    self.detected
                },
                ..self
            },
        }
    }

    /// A block.
    pub open spec fn observed(self, block: Option<char>) -> TrackerModel {
        match block {
            Some(digit) => self.sounded(digit),
            None => self.silent(),
        }
    }
}

impl DigitTracker {
    /// Create a tracker.
    pub fn new(sample_rate: u32, block_size: usize) -> (t: DigitTracker)
        requires
            sample_rate > 0,
        ensures
            t@ == TrackerModel::fresh(sample_rate, block_size),
            t@.valid(),
    {
        let t = DigitTracker {
            block_size,
            sample_rate,
            sample_pos: 0,
            current_digit: None,
            detection_count: 0,
            silence_count: 0,
            last_reported: None,
            digit_reported: false,
            detected: Vec::new(),
        };
        assert(t@ =~= TrackerModel::fresh(sample_rate, block_size));
        t
    }

    /// Count a sample; says whether it fills a block, and a new one begins.
    pub fn advance(&mut self) -> (full: bool)
        requires
            old(self)@.sample_pos < usize::MAX,
        ensures
            full == (old(self)@.sample_pos + 1 >= old(self)@.block_size),
            final(self)@ == (TrackerModel {
                sample_pos: if full {
                    0
                } else {
                    (old(self)@.sample_pos + 1) as usize
                },
                ..old(self)@
            }),
    {
        self.sample_pos = self.sample_pos + 1;
        if self.sample_pos >= self.block_size {
            self.sample_pos = 0;
            true
        } else {
            false
        }
    }

    /// Whether the length of a digit can be counted on.
    pub fn has_room(&self) -> (r: bool)
        ensures
            r == self@.has_room(),
    {
        if self.detection_count >= u32::MAX - 1 {
            return false;
        }
        let blocks: u128 = self.detection_count as u128 + 1;
        assert(0 <= blocks * self.block_size <= 0x1_0000_0000 * u64::MAX) by (nonlinear_arith)
            requires
                0 <= blocks <= 0x1_0000_0000,
                0 <= self.block_size <= u64::MAX,
        ;
        blocks * self.block_size as u128 * 1000 <= u64::MAX as u128
    }

    /// Take in a block.
    pub fn observe(&mut self, block: Option<char>)
        requires
            old(self)@.valid(),
            old(self)@.has_room(),
        ensures
            final(self)@ == old(self)@.observed(block),
            final(self)@.valid(),
    {
        let ghost m = self@;
        match block {
            Some(digit) => {
                self.silence_count = 0;
                let same: bool = match self.current_digit {
                    Some(d) => d == digit,
                    None => false,
                };
                if same {
                    self.detection_count = self.detection_count + 1;
                } else {
                    self.current_digit = Some(digit);
                    self.detection_count = 1;
                    self.digit_reported = false;
                }
                if self.detection_count >= MIN_DETECTION_FRAMES && !self.digit_reported {
                    self.digit_reported = true;
                    self.last_reported = Some(digit);
                }
                assert(self@ =~= m.sounded(digit));
            },
            None => {
                if let Some(digit) = self.current_digit {
                    self.silence_count = self.silence_count + 1;
                    if self.digit_reported {
                        let blocks: u64 = self.detection_count as u64 + self.silence_count as u64;
                        proof {
                            assert(0 <= blocks * self.block_size * 1000 <= u64::MAX);
                            assert(blocks * self.block_size <= u64::MAX);
                        }
                        let ms: u64 = blocks * self.block_size as u64 * 1000
                            / self.sample_rate as u64;
                        self.detected.push(
                            InbandDtmf { digit, duration_ms: (ms % 0x1_0000_0000) as u32 },
                        );
                    }
                    self.current_digit = None;
                    self.detection_count = 0;
                    self.digit_reported = false;
                }
                assert(self@ =~= m.silent());
            },
        }
    }

    /// Forget everything heard.
    pub fn reset(&mut self)
        ensures
            final(self)@ == TrackerModel::fresh(old(self)@.sample_rate, old(self)@.block_size),
    {
        self.sample_pos = 0;
        self.current_digit = None;
        self.detection_count = 0;
        self.silence_count = 0;
        self.last_reported = None;
        self.digit_reported = false;
        self.detected = Vec::new();
        assert(self@ =~= TrackerModel::fresh(old(self)@.sample_rate, old(self)@.block_size));
    }

    /// Collect the digits found.
    pub fn drain(&mut self) -> (v: Vec<InbandDtmf>)
        ensures
            v@ == old(self)@.detected,
            final(self)@ == (TrackerModel { detected: Seq::empty(), ..old(self)@ }),
    {
        let mut v: Vec<InbandDtmf> = Vec::new();
        v.append(&mut self.detected);
        assert(v@ =~= old(self)@.detected);
        assert(self@ =~= (TrackerModel { detected: Seq::empty(), ..old(self)@ }));
        v
    }
}

// ---------------------------------------------------------------------------
// Laws
// ---------------------------------------------------------------------------

/// A tracker after a run of blocks.
pub open spec fn followed(m: TrackerModel, blocks: Seq<Option<char>>) -> TrackerModel
    decreases blocks.len(),
{
    if blocks.len() == 0 {
        m
    } else {
        followed(m, blocks.drop_last()).observed(blocks.last())
    }
}

/// A digit that sounds for `n` blocks.
pub open spec fn held(digit: char, n: nat) -> Seq<Option<char>> {
    Seq::new(n, |i: int| Some(digit))
}

proof fn lemma_held(m: TrackerModel, digit: char, n: nat)
    requires
        m.current_digit is None,
        1 <= n < u32::MAX,
    ensures
        followed(m, held(digit, n)) == (TrackerModel {
            silence_count: 0,
            current_digit: Some(digit),
            detection_count: n as u32,
            digit_reported: n >= MIN_DETECTION_FRAMES,
            last_reported: if n >= MIN_DETECTION_FRAMES {
                Some(digit)
            } else {
                m.last_reported
            },
            ..m
        }),
    decreases n,
{
    assert(held(digit, n).drop_last() =~= held(digit, (n - 1) as nat));
    if n > 1 {
        lemma_held(m, digit, (n - 1) as nat);
    } else {
        assert(held(digit, 0) =~= Seq::empty());
        assert(followed(m, held(digit, 0)) == m);
    }
}

/// A digit counts when silence follows it, once, and only if it sounded for
/// two blocks or more; its duration takes in the block of silence.
pub proof fn law_held_digit_counts(m: TrackerModel, digit: char, n: nat)
    requires
        m.current_digit is None,
        1 <= n < u32::MAX,
    ensures
        followed(m, held(digit, n).push(None)).detected == if n >= MIN_DETECTION_FRAMES {
            m.detected.push(InbandDtmf { digit, duration_ms: m.blocks_ms(n as int + 1) })
        } else {
            m.detected
        },
        followed(m, held(digit, n).push(None)).current_digit is None,
{
    lemma_held(m, digit, n);
    assert(held(digit, n).push(None).drop_last() =~= held(digit, n));
}

/// Silence changes nothing where no digit sounds.
pub proof fn law_silence_is_nothing(m: TrackerModel)
    requires
        m.current_digit is None,
    ensures
        m.observed(None) == m,
{
}

} // verus!
