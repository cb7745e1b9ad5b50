//! Who gets which audio.

use crate::rtp::media_tap;
use crate::rtp::media_tap::{MediaTap, MediaTapManager, TapDirection};
use crate::text;
use vstd::prelude::*;

verus! {

/// A tap on what is received gets that, one on what is sent gets that, and one
/// on both gets both.
pub proof fn law_directions(d: TapDirection)
    ensures
        d is Rx ==> d.rx() && !d.tx(),
        d is Tx ==> !d.rx() && d.tx(),
        d is Both ==> d.rx() && d.tx(),
{
}

/// Taps get audio in the order in which they were added.
pub proof fn law_order_of_taps(taps: Seq<MediaTap>, t: MediaTap, received: bool)
    ensures
        ({
            let before = MediaTapManager::listeners(taps, received);
            let after = MediaTapManager::listeners(taps.push(t), received);
            &&& t.direction is Both ==> after == before.push(media_tap::tap_name(t.number))
            &&& t.direction is Rx && received ==> after == before.push(
                media_tap::tap_name(t.number),
            )
            &&& t.direction is Tx && !received ==> after == before.push(
                media_tap::tap_name(t.number),
            )
            &&& t.direction is Rx && !received ==> after == before
            &&& t.direction is Tx && received ==> after == before
            &&& MediaTapManager::listeners(Seq::empty(), received).len() == 0
        }),
{
    assert(taps.push(t).drop_last() =~= taps);
}

/// The name of a tap is a fixed word, a hyphen and its number.
pub proof fn law_tap_name(n: u64)
    ensures
        ({
            let s = media_tap::tap_name(n);
            &&& s.len() > 4
            &&& s[0] == 't' && s[1] == 'a' && s[2] == 'p' && s[3] == '-'
            &&& text::parsed_unsigned(s.skip(4), u64::MAX as nat) == Some(n as nat)
        }),
{
    reveal_strlit("tap-");
    text::lemma_decimal_text(n as nat);
    text::lemma_parse_decimal_text(n as nat, u64::MAX as nat);
    assert(media_tap::tap_name(n).skip(4) =~= text::decimal_text(n as nat));
}

} // verus!
