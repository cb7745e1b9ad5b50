//! Media ports: even numbers of a range, each given out once.

pub mod laws;

use crate::random::random_word;
use std::collections::HashSet;
use vstd::prelude::*;

verus! {

broadcast use vstd::std_specs::hash::group_hash_axioms;

/// The ports that are taken.
pub struct PortPool {
    pub allocated: HashSet<u16>,
}

/// The even ports from `start` up to, and without, `end`.
pub open spec fn in_range(start: u16, end: u16, port: u16) -> bool {
    port % 2 == 0 && start <= port < end
}

/// The first even number from a port on.
pub open spec fn first_even(start: u16) -> int {
    start + start % 2
}

/// How many even ports a range has.
pub open spec fn range_size(start: u16, end: u16) -> int {
    if first_even(start) >= end {
        0
    } else {
        (end - first_even(start) + 1) / 2
    }
}

/// The `k`-th port of a range, counted from an offset and around.
pub open spec fn port_at(start: u16, end: u16, offset: int, k: int) -> u16 {
    let n = range_size(start, end);
    let i = if offset + k < n {
        offset + k
    } else {
        offset + k - n
    };
    (first_even(start) + 2 * i) as u16
}

impl View for PortPool {
    type V = Set<u16>;

    open spec fn view(&self) -> Set<u16> {
        self.allocated@
    }
}

impl PortPool {
    /// Create a pool with every port free.
    pub fn new() -> (p: PortPool)
        ensures
            p@ == Set::<u16>::empty(),
    {
        PortPool { allocated: HashSet::new() }
    }

    /// Take the first free port of a range, counted from an offset and around.
    pub fn allocate_from(&mut self, start: u16, end: u16, offset: usize) -> (r: Option<u16>)
        ensures
            match r {
                Some(p) => {
                    let o = offset as int % range_size(start, end);
                    &&& in_range(start, end, p)
                    &&& !old(self)@.contains(p)
                    &&& final(self)@ == old(self)@.insert(p)
                    &&& exists|k: int|
                        0 <= k < range_size(start, end) && p == #[trigger] port_at(
                            start,
                            end,
                            o,
                            k,
                        ) && forall|j: int|
                            0 <= j < k ==> old(self)@.contains(
                                #[trigger] port_at(start, end, o, j),
                            )
                },
                None => {
                    &&& forall|p: u16| in_range(start, end, p) ==> old(self)@.contains(p)
                    &&& final(self)@ == old(self)@
                },
            },
    {
        if end <= start {
            return None;
        }
        let first: u16 = if start % 2 != 0 {
            start + 1
        } else {
            start
        };
        if first >= end {
            return None;
        }
        let n: usize = (end as usize - first as usize + 1) / 2;
        let o: usize = offset % n;
        let mut k: usize = 0;
        while k < n
            invariant
                k <= n,
                n == range_size(start, end),
                first == first_even(start),
                first < end,
                o < n,
                o == offset as int % range_size(start, end),
                self@ == old(self)@,
                forall|j: int|
                    0 <= j < k ==> old(self)@.contains(
                        #[trigger] port_at(start, end, o as int, j),
                    ),
            decreases n - k,
        {
            let i: usize = if k < n - o {
                o + k
            } else {
                k - (n - o)
            };
            let port: u16 = first + 2 * i as u16;
            assert(port == port_at(start, end, o as int, k as int));
            if !self.allocated.contains(&port) {
                self.allocated.insert(port);
                return Some(port);
            }
            k += 1;
        }
        assert forall|p: u16| in_range(start, end, p) implies old(self)@.contains(p) by {
            let i = (p - first) / 2;
            let j = if i >= o {
                i - o
            } else {
                i - o + n
            };
            assert(p == port_at(start, end, o as int, j));
        }
        None
    }

    /// Give a port back.
    pub fn release_rtp_port(&mut self, port: u16)
        ensures
            final(self)@ == old(self)@.remove(port),
    {
        self.allocated.remove(&port);
    }
}

/// Take a free port of a range, beginning at a random place.
pub fn allocate_rtp_port(pool: &mut PortPool, start: u16, end: u16) -> (r: Option<u16>)
    ensures
        match r {
            Some(p) => in_range(start, end, p) && !old(pool)@.contains(p) && final(pool)@ == old(
                pool,
            )@.insert(p),
            None => (forall|p: u16| in_range(start, end, p) ==> old(pool)@.contains(p))
                && final(pool)@ == old(pool)@,
        },
{
    let offset: usize = (random_word() % 0x1_0000) as usize;
    pool.allocate_from(start, end, offset)
}

/// A port given back can be taken again.
pub proof fn law_released_is_free(pool: Set<u16>, port: u16)
    ensures
        !pool.remove(port).contains(port),
        pool.contains(port) ==> pool.remove(port).insert(port) == pool,
{
    if pool.contains(port) {
        assert(pool.remove(port).insert(port) =~= pool);
    }
}

} // verus!
