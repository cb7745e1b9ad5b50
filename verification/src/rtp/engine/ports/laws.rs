//! Which ports a range has.

use crate::rtp::engine::ports;
use vstd::prelude::*;

verus! {

/// Counted from any place and around, a range goes through its even ports, and
/// gives each of them once.
pub proof fn law_each_port_once(start: u16, end: u16, offset: int, i: int, j: int)
    requires
        0 <= offset < ports::range_size(start, end),
        0 <= i < j < ports::range_size(start, end),
    ensures
        ({
            let p = ports::port_at(start, end, offset, i);
            let q = ports::port_at(start, end, offset, j);
            &&& p % 2 == 0 && start <= p < end
            &&& q % 2 == 0 && start <= q < end
            &&& p != q
        }),
{
}

/// No even port of the range is left out.
pub proof fn law_no_port_left_out(start: u16, end: u16, offset: int, p: u16)
    requires
        0 <= offset < ports::range_size(start, end),
        p % 2 == 0,
        start <= p < end,
    ensures
        exists|k: int|
            0 <= k < ports::range_size(start, end) && #[trigger] ports::port_at(
                start,
                end,
                offset,
                k,
            ) == p,
{
    let n = ports::range_size(start, end);
    let i = (p - ports::first_even(start)) / 2;
    let k = if i >= offset {
        i - offset
    } else {
        i - offset + n
    };
    assert(ports::port_at(start, end, offset, k) == p);
}

/// After each port comes the next even one, and after the last the first.
pub proof fn law_ports_in_order(start: u16, end: u16, offset: int, k: int)
    requires
        0 <= offset < ports::range_size(start, end),
        0 <= k,
        k + 1 < ports::range_size(start, end),
    ensures
        ({
            let p = ports::port_at(start, end, offset, k);
            let q = ports::port_at(start, end, offset, k + 1);
            &&& p + 2 < end ==> q == p + 2
            &&& p + 2 >= end ==> start <= q <= start + 1
        }),
{
}

/// The ports of a range are its even numbers, without its end.
pub proof fn law_ports_of_range(start: u16, end: u16, port: u16)
    ensures
        ports::in_range(start, end, port) <==> port % 2 == 0 && start <= port < end,
        ports::range_size(start, end) > 0 <==> exists|p: u16| #[trigger] ports::in_range(start, end, p),
{
    if ports::range_size(start, end) > 0 {
        let p = ports::first_even(start) as u16;
        assert(ports::in_range(start, end, p));
    }
}

} // verus!
