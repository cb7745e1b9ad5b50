//! Taps on the audio of a call: who listens, and to which direction.

pub mod laws;

use crate::text;
use vstd::prelude::*;
use vstd::slice::slice_to_vec;
use vstd::string::*;

verus! {

/// Which audio a tap gets.
#[derive(Debug, Clone, Copy, PartialEq, Eq, Structural)]
pub enum TapDirection {
    /// What is received.
    Rx,
    /// What is sent.
    Tx,
    /// All of it.
    Both,
}

impl TapDirection {
    /// What is received is part of it.
    pub open spec fn rx(self) -> bool {
        self != TapDirection::Tx
    }

    /// What is sent is part of it.
    pub open spec fn tx(self) -> bool {
        self != TapDirection::Rx
    }

    /// Whether what is received is part of it.
    pub fn includes_rx(&self) -> (r: bool)
        ensures
            r == self.rx(),
    {
        *self == TapDirection::Rx || *self == TapDirection::Both
    }

    /// Whether what is sent is part of it.
    pub fn includes_tx(&self) -> (r: bool)
        ensures
            r == self.tx(),
    {
        *self == TapDirection::Tx || *self == TapDirection::Both
    }

    /// The direction's name.
    pub fn name(&self) -> (s: &'static str)
        ensures
            s@ == match self {
                TapDirection::Rx => "rx"@,
                TapDirection::Tx => "tx"@,
                TapDirection::Both => "both"@,
            },
    {
        match self {
            TapDirection::Rx => "rx",
            TapDirection::Tx => "tx",
            TapDirection::Both => "both",
        }
    }
}

/// Frames that wait for a tap's reader, at most.
pub const DEFAULT_TAP_CHANNEL_CAPACITY: usize = 1000;

/// Audio handed to a tap.
#[derive(Debug, Clone)]
pub struct AudioFrame {
    pub samples: Vec<i16>,
    pub sample_rate: u32,
    /// The timestamp of its packet.
    pub timestamp: u32,
    /// Whether it was received or sent.
    pub direction: TapDirection,
}

/// A frame, and the names of the taps that it goes to.
pub struct Distribution {
    pub frame: AudioFrame,
    pub tap_ids: Vec<String>,
}

/// What became of a frame on its way to a tap's reader.
#[derive(Debug, Clone, Copy, PartialEq, Eq, Structural)]
pub enum Delivery {
    /// It waits for the reader.
    Sent,
    /// Too many wait already.
    Full,
    /// The reader is gone.
    Closed,
}

/// A tap.
pub struct MediaTap {
    pub number: u64,
    pub direction: TapDirection,
}

/// The name of the tap with a number.
pub open spec fn tap_name(n: u64) -> Seq<char> {
    "tap-"@ + text::decimal_text(n as nat)
}

/// The taps on one stream, oldest first.
pub struct MediaTapManager {
    pub taps: Vec<MediaTap>,
    pub next_id: u64,
}

impl MediaTapManager {
    /// The numbers go up, and the next is above them all.
    pub open spec fn valid(self) -> bool {
        &&& forall|i: int, j: int|
            0 <= i < j < self.taps@.len() ==> (#[trigger] self.taps@[i]).number < (
            #[trigger] self.taps@[j]).number
        &&& forall|i: int|
            0 <= i < self.taps@.len() ==> (#[trigger] self.taps@[i]).number < self.next_id
    }

    /// Some tap has this name.
    pub open spec fn knows(self, name: Seq<char>) -> bool {
        exists|i: int| 0 <= i < self.taps@.len() && tap_name((#[trigger] self.taps@[i]).number)
            == name
    }

    /// Create a manager without taps.
    pub fn new() -> (m: MediaTapManager)
        ensures
            m.taps@.len() == 0,
            m.next_id == 1,
            m.valid(),
    {
        MediaTapManager { taps: Vec::new(), next_id: 1 }
    }

    fn name_of(n: u64) -> (s: String)
        ensures
            s@ == tap_name(n),
    {
        let number = text::decimal(n as u128);
        String::from_str("tap-").concat(number.as_str())
    }

    /// Add a tap; gives its name, which no other tap has had.
    pub fn add_tap(&mut self, direction: TapDirection) -> (id: String)
        requires
            old(self).valid(),
            old(self).next_id < u64::MAX,
        ensures
            final(self).valid(),
            final(self).next_id == old(self).next_id + 1,
            final(self).taps@ == old(self).taps@.push(
                MediaTap { number: old(self).next_id, direction },
            ),
            id@ == tap_name(old(self).next_id),
            !old(self).knows(id@),
    {
        let number: u64 = self.next_id;
        let id = MediaTapManager::name_of(number);
        proof {
            assert forall|i: int| 0 <= i < self.taps@.len() implies tap_name(
                (#[trigger] self.taps@[i]).number,
            ) != id@ by {
                lemma_tap_name(self.taps@[i].number, number);
            }
        }
        self.next_id = number + 1;
        self.taps.push(MediaTap { number, direction });
        id
    }

    /// Remove the tap with a name; says whether there was one.
    pub fn remove_tap(&mut self, tap_id: &str) -> (found: bool)
        requires
            old(self).valid(),
        ensures
            final(self).valid(),
            final(self).next_id == old(self).next_id,
            found == old(self).knows(tap_id@),
            !final(self).knows(tap_id@),
            found ==> exists|i: int|
                0 <= i < old(self).taps@.len() && tap_name((#[trigger] old(self).taps@[i]).number)
                    == tap_id@ && final(self).taps@ == old(self).taps@.remove(i),
            !found ==> *final(self) == *old(self),
    {
        let mut i: usize = 0;
        while i < self.taps.len()
            invariant
                i <= self.taps@.len(),
                *self == *old(self),
                self.valid(),
                forall|k: int|
                    0 <= k < i ==> tap_name((#[trigger] self.taps@[k]).number) != tap_id@,
            decreases self.taps@.len() - i,
        {
            let name = MediaTapManager::name_of(self.taps[i].number);
            if text::same_text(name.as_str(), tap_id) {
                let ghost n = self.taps@[i as int].number;
                self.taps.remove(i);
                proof {
                    assert(self.taps@ == old(self).taps@.remove(i as int));
                    assert(tap_name(old(self).taps@[i as int].number) == tap_id@);
                    assert forall|k: int| 0 <= k < self.taps@.len() implies tap_name(
                        (#[trigger] self.taps@[k]).number,
                    ) != tap_id@ by {
                        lemma_tap_name(self.taps@[k].number, n);
                    }
                }
                return true;
            }
            i += 1;
        }
        false
    }

    /// How many taps there are.
    pub fn tap_count(&self) -> (n: usize)
        ensures
            n == self.taps@.len(),
    {
        self.taps.len()
    }

    /// Whether there are taps.
    pub fn has_taps(&self) -> (r: bool)
        ensures
            r == (self.taps@.len() > 0),
    {
        self.taps.len() > 0
    }

    /// Whether some tap gets what is received.
    pub fn has_rx_taps(&self) -> (r: bool)
        ensures
            r == exists|i: int|
                0 <= i < self.taps@.len() && (#[trigger] self.taps@[i]).direction.rx(),
    {
        let mut i: usize = 0;
        while i < self.taps.len()
            invariant
                i <= self.taps@.len(),
                forall|k: int| 0 <= k < i ==> !(#[trigger] self.taps@[k]).direction.rx(),
            decreases self.taps@.len() - i,
        {
            if self.taps[i].direction.includes_rx() {
                return true;
            }
            i += 1;
        }
        false
    }

    /// Whether some tap gets what is sent.
    pub fn has_tx_taps(&self) -> (r: bool)
        ensures
            r == exists|i: int|
                0 <= i < self.taps@.len() && (#[trigger] self.taps@[i]).direction.tx(),
    {
        let mut i: usize = 0;
        while i < self.taps.len()
            invariant
                i <= self.taps@.len(),
                forall|k: int| 0 <= k < i ==> !(#[trigger] self.taps@[k]).direction.tx(),
            decreases self.taps@.len() - i,
        {
            if self.taps[i].direction.includes_tx() {
                return true;
            }
            i += 1;
        }
        false
    }

    /// The taps that a frame goes to.
    pub open spec fn listeners(taps: Seq<MediaTap>, received: bool) -> Seq<Seq<char>>
        decreases taps.len(),
    {
        if taps.len() == 0 {
            Seq::empty()
        } else {
            let before = MediaTapManager::listeners(taps.drop_last(), received);
            let d = taps.last().direction;
            if (received && d.rx()) || (!received && d.tx()) {
                before.push(tap_name(taps.last().number))
            } else {
                before
            }
        }
    }

    /// What is to be done with audio: a copy of it goes to each tap that gets
    /// what is received, or what is sent.
    pub open spec fn distributes(
        self,
        d: Distribution,
        samples: Seq<i16>,
        sample_rate: u32,
        timestamp: u32,
        received: bool,
    ) -> bool {
        &&& d.frame.samples@ == samples
        &&& d.frame.sample_rate == sample_rate
        &&& d.frame.timestamp == timestamp
        &&& d.frame.direction == if received {
            TapDirection::Rx
        } else {
            TapDirection::Tx
        }
        &&& Seq::new(d.tap_ids@.len(), |i: int| d.tap_ids@[i]@) == MediaTapManager::listeners(
            self.taps@,
            received,
        )
    }

    /// The frame of received audio, and the taps that get it, oldest first.
    pub fn distribute_rx(&self, samples: &[i16], sample_rate: u32, timestamp: u32) -> (d:
        Distribution)
        ensures
            self.distributes(d, samples@, sample_rate, timestamp, true),
    {
        let tap_ids = self.recipients(true);
        Distribution {
            frame: AudioFrame {
                samples: slice_to_vec(samples),
                sample_rate,
                timestamp,
                direction: TapDirection::Rx,
            },
            tap_ids,
        }
    }

    /// The frame of sent audio, and the taps that get it, oldest first.
    pub fn distribute_tx(&self, samples: &[i16], sample_rate: u32, timestamp: u32) -> (d:
        Distribution)
        ensures
            self.distributes(d, samples@, sample_rate, timestamp, false),
    {
        let tap_ids = self.recipients(false);
        Distribution {
            frame: AudioFrame {
                samples: slice_to_vec(samples),
                sample_rate,
                timestamp,
                direction: TapDirection::Tx,
            },
            tap_ids,
        }
    }

    /// Take note of what became of a frame: a tap whose reader is gone is
    /// removed. Says whether a slow reader lost the frame.
    pub fn settle(&mut self, tap_id: &str, delivery: Delivery) -> (lost: bool)
        requires
            old(self).valid(),
        ensures
            final(self).valid(),
            lost == (delivery == Delivery::Full),
            delivery != Delivery::Closed || !old(self).knows(tap_id@) ==> *final(self) == *old(
                self,
            ),
            delivery == Delivery::Closed ==> !final(self).knows(tap_id@),
            delivery == Delivery::Closed && old(self).knows(tap_id@) ==> final(self).next_id
                == old(self).next_id && exists|i: int|
                0 <= i < old(self).taps@.len() && tap_name((#[trigger] old(self).taps@[i]).number)
                    == tap_id@ && final(self).taps@ == old(self).taps@.remove(i),
    {
        if delivery == Delivery::Closed {
            let _ = self.remove_tap(tap_id);
        }
        delivery == Delivery::Full
    }

    /// The names of the taps that a frame goes to, oldest first.
    fn recipients(&self, received: bool) -> (ids: Vec<String>)
        ensures
            Seq::new(ids@.len(), |i: int| ids@[i]@) == MediaTapManager::listeners(
                self.taps@,
                received,
            ),
    {
        let mut ids: Vec<String> = Vec::new();
        let mut i: usize = 0;
        assert(self.taps@.take(0) =~= Seq::empty());
        assert(Seq::new(ids@.len(), |k: int| ids@[k]@) =~= Seq::empty());
        while i < self.taps.len()
            invariant
                i <= self.taps@.len(),
                Seq::new(ids@.len(), |k: int| ids@[k]@) == MediaTapManager::listeners(
                    self.taps@.take(i as int),
                    received,
                ),
            decreases self.taps@.len() - i,
        {
            let ghost before = Seq::new(ids@.len(), |k: int| ids@[k]@);
            let d = self.taps[i].direction;
            assert(self.taps@.take(i + 1).drop_last() =~= self.taps@.take(i as int));
            if (received && d.includes_rx()) || (!received && d.includes_tx()) {
                let id = MediaTapManager::name_of(self.taps[i].number);
                ids.push(id);
                assert(Seq::new(ids@.len(), |k: int| ids@[k]@) =~= before.push(
                    tap_name(self.taps@[i as int].number),
                ));
            }
            i += 1;
        }
        assert(self.taps@.take(i as int) =~= self.taps@);
        ids
    }

    /// Remove all taps; their names are not used again.
    pub fn clear(&mut self)
        ensures
            final(self).taps@.len() == 0,
            final(self).next_id == old(self).next_id,
            final(self).valid(),
    {
        self.taps = Vec::new();
    }

    /// The names of the taps with their directions, oldest first.
    pub fn active_taps(&self) -> (v: Vec<(String, TapDirection)>)
        ensures
            v@.len() == self.taps@.len(),
            forall|i: int|
                0 <= i < v@.len() ==> (#[trigger] v@[i]).0@ == tap_name(self.taps@[i].number)
                    && v@[i].1 == self.taps@[i].direction,
    {
        let mut v: Vec<(String, TapDirection)> = Vec::new();
        let mut i: usize = 0;
        while i < self.taps.len()
            invariant
                i <= self.taps@.len(),
                v@.len() == i,
                forall|k: int|
                    0 <= k < i ==> (#[trigger] v@[k]).0@ == tap_name(self.taps@[k].number)
                        && v@[k].1 == self.taps@[k].direction,
            decreases self.taps@.len() - i,
        {
            v.push((MediaTapManager::name_of(self.taps[i].number), self.taps[i].direction));
            i += 1;
        }
        v
    }
}

impl Default for MediaTapManager {
    fn default() -> (m: MediaTapManager)
        ensures
            m.taps@.len() == 0,
            m.next_id == 1,
            m.valid(),
    {
        MediaTapManager::new()
    }
}

proof fn lemma_tap_name(a: u64, b: u64)
    ensures
        tap_name(a) == tap_name(b) ==> a == b,
{
    let prefix = "tap-"@;
    let x = text::decimal_text(a as nat);
    let y = text::decimal_text(b as nat);
    if tap_name(a) == tap_name(b) {
        assert(x =~= tap_name(a).skip(prefix.len() as int));
        assert(y =~= tap_name(b).skip(prefix.len() as int));
        text::lemma_parse_decimal_text(a as nat, u64::MAX as nat);
        text::lemma_parse_decimal_text(b as nat, u64::MAX as nat);
    }
}

/// Taps with different numbers have different names.
pub proof fn law_tap_names_differ(a: u64, b: u64)
    requires
        a != b,
    ensures
        tap_name(a) != tap_name(b),
{
    lemma_tap_name(a, b);
}

/// Audio reaches the taps of its direction, and no others.
pub proof fn law_who_listens(taps: Seq<MediaTap>, received: bool, name: Seq<char>)
    ensures
        MediaTapManager::listeners(taps, received).contains(name) <==> exists|i: int|
            0 <= i < taps.len() && tap_name((#[trigger] taps[i]).number) == name && if received {
                taps[i].direction.rx()
            } else {
                taps[i].direction.tx()
            },
    decreases taps.len(),
{
    if taps.len() > 0 {
        let front = taps.drop_last();
        law_who_listens(front, received, name);
        let before = MediaTapManager::listeners(front, received);
        let all = MediaTapManager::listeners(taps, received);
        let last = tap_name(taps.last().number);
        assert(taps[taps.len() - 1] == taps.last());
        assert forall|i: int| 0 <= i < front.len() implies front[i] == #[trigger] taps[i] by {}
        if all.contains(name) {
            let k = choose|k: int| 0 <= k < all.len() && all[k] == name;
            if k < before.len() {
                assert(before[k] == name);
            }
        }
        if before.contains(name) {
            let k = choose|k: int| 0 <= k < before.len() && before[k] == name;
            assert(all[k] == name);
        }
        if all.len() > before.len() {
            assert(all[all.len() - 1] == last);
        }
    }
}

/// No tap gets a frame twice.
pub proof fn law_no_tap_twice(m: MediaTapManager, received: bool)
    requires
        m.valid(),
    ensures
        MediaTapManager::listeners(m.taps@, received).no_duplicates(),
{
    lemma_no_tap_twice(m.taps@, received);
}

proof fn lemma_no_tap_twice(taps: Seq<MediaTap>, received: bool)
    requires
        forall|i: int, j: int|
            0 <= i < j < taps.len() ==> (#[trigger] taps[i]).number < (#[trigger] taps[j]).number,
    ensures
        MediaTapManager::listeners(taps, received).no_duplicates(),
    decreases taps.len(),
{
    if taps.len() > 0 {
        let front = taps.drop_last();
        assert forall|i: int, j: int| 0 <= i < j < front.len() implies (
        #[trigger] front[i]).number < (#[trigger] front[j]).number by {
            assert(taps[i].number < taps[j].number);
        }
        lemma_no_tap_twice(front, received);
        let name = tap_name(taps.last().number);
        law_who_listens(front, received, name);
        assert forall|i: int| 0 <= i < front.len() implies tap_name(
            (#[trigger] front[i]).number,
        ) != name by {
            assert(taps[i].number < taps[taps.len() - 1].number);
            lemma_tap_name(front[i].number, taps.last().number);
        }
        let before = MediaTapManager::listeners(front, received);
        assert(!before.contains(name));
        let all = MediaTapManager::listeners(taps, received);
        assert forall|i: int, j: int| 0 <= i < all.len() && 0 <= j < all.len() && i != j implies
            all[i] != all[j] by {
            if i < before.len() && j < before.len() {
                assert(before[i] != before[j]);
            } else if i < before.len() {
                assert(before.contains(before[i]));
            } else if j < before.len() {
                assert(before.contains(before[j]));
            }
        }
    }
}

} // verus!
