//! Which digits are heard, and for how long.

use crate::rtp::goertzel;
use crate::rtp::goertzel::{InbandDtmf, Tone, TrackerModel};
use vstd::prelude::*;

verus! {

/// The keypad of a telephone: the digits from one to nine, three in a row, the
/// zero below them between star and hash, and four letters down the right side.
pub proof fn law_keypad(n: int, row: int)
    requires
        1 <= n <= 9,
        0 <= row <= 3,
    ensures
        goertzel::keypad((n - 1) / 3, (n - 1) % 3) as u32 == 48 + n,
        goertzel::keypad(3, 0) as u32 == 42,
        goertzel::keypad(3, 1) as u32 == 48,
        goertzel::keypad(3, 2) as u32 == 35,
        goertzel::keypad(row, 3) as u32 == 65 + row,
{
    assert(n == 1 || n == 2 || n == 3 || n == 4 || n == 5 || n == 6 || n == 7 || n == 8 || n == 9);
    assert(row == 0 || row == 1 || row == 2 || row == 3);
}

/// Blocks last as long as their samples, in whole milliseconds.
pub proof fn law_duration(m: TrackerModel, blocks: int)
    requires
        m.sample_rate > 0,
        blocks >= 0,
        blocks * m.block_size * 1000 < 0x1_0000_0000 * m.sample_rate,
    ensures
        m.blocks_ms(blocks) * m.sample_rate <= blocks * m.block_size * 1000,
        (m.blocks_ms(blocks) + 1) * m.sample_rate > blocks * m.block_size * 1000,
{
    let x = blocks * m.block_size * 1000;
    let r = m.sample_rate as int;
    assert(x >= 0) by (nonlinear_arith)
        requires
            x == blocks * m.block_size * 1000,
            blocks >= 0,
            m.block_size >= 0,
    ;
    vstd::arithmetic::div_mod::lemma_fundamental_div_mod(x, r);
    let q = x / r;
    assert(0 <= q < 0x1_0000_0000 && q * r <= x < (q + 1) * r) by (nonlinear_arith)
        requires
            x == r * q + x % r,
            0 <= x % r < r,
            0 <= x < 0x1_0000_0000 * r,
    ;
}

/// Two blocks make a digit, and one does not: it counts once it has ended, and
/// its duration takes in the block that ended it.
pub proof fn law_two_blocks_make_a_digit(m: TrackerModel, digit: char, n: nat)
    requires
        m.current_digit is None,
        1 <= n < u32::MAX,
    ensures
        ({
            let after = goertzel::followed(m, goertzel::held(digit, n).push(None));
            &&& n == 1 ==> after.detected == m.detected
            &&& n >= 2 ==> after.detected.len() == m.detected.len() + 1
            &&& n >= 2 ==> after.detected.drop_last() == m.detected
            &&& n >= 2 ==> after.detected.last() == (InbandDtmf {
                digit,
                duration_ms: m.blocks_ms(n as int + 1),
            })
        }),
{
    goertzel::law_held_digit_counts(m, digit, n);
    if n >= 2 {
        let d = InbandDtmf { digit, duration_ms: m.blocks_ms(n as int + 1) };
        assert(m.detected.push(d).drop_last() =~= m.detected);
    }
}

/// A digit that follows another without silence counts from its first block;
/// the other does not count.
pub proof fn law_digit_after_digit(m: TrackerModel, digit: char)
    requires
        m.current_digit is Some,
        m.current_digit != Some(digit),
    ensures
        m.observed(Some(digit)).current_digit == Some(digit),
        m.observed(Some(digit)).detection_count == 1,
        !m.observed(Some(digit)).digit_reported,
        m.observed(Some(digit)).detected == m.detected,
{
}

/// While a digit sounds nothing is added, block by block it is counted.
pub proof fn law_digit_goes_on(m: TrackerModel, digit: char)
    requires
        m.valid(),
        m.has_room(),
        m.current_digit == Some(digit),
    ensures
        m.observed(Some(digit)).detection_count == m.detection_count + 1,
        m.observed(Some(digit)).digit_reported,
        m.observed(Some(digit)).detected == m.detected,
{
}

/// A tone stands out only above what each of the others has 6 dB above it; as
/// much is not enough.
pub proof fn law_stands_out(tones: Seq<Tone>, i: int, j: int)
    requires
        goertzel::stands_out(tones, i),
        0 <= j < 4,
        j != i,
    ensures
        tones[j].above < tones[i].power,
{
    let t = tones[j];
}

/// A tone that is above what all the others have 6 dB above them stands out.
pub proof fn law_stands_out_above_all(tones: Seq<Tone>, i: int)
    requires
        forall|j: int| 0 <= j < 4 && j != i ==> (#[trigger] tones[j]).above < tones[i].power,
    ensures
        goertzel::stands_out(tones, i),
{
}

/// Beyond the last row or column the last one counts.
pub proof fn law_keypad_edge(row: int, col: int)
    requires
        row >= 0,
        col >= 0,
    ensures
        row >= 3 ==> goertzel::keypad(row, col) == goertzel::keypad(3, col),
        col >= 3 ==> goertzel::keypad(row, col) == goertzel::keypad(row, 3),
{
}

} // verus!
