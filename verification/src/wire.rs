//! Network byte order.

use vstd::prelude::*;

verus! {

/// Two bytes, most significant first.
pub open spec fn be16(x: u16) -> Seq<u8> {
    seq![(x / 0x100) as u8, (x % 0x100) as u8]
}

/// Four bytes, most significant first.
pub open spec fn be32(x: u32) -> Seq<u8> {
    seq![
        (x / 0x100_0000) as u8,
        (x / 0x1_0000 % 0x100) as u8,
        (x / 0x100 % 0x100) as u8,
        (x % 0x100) as u8,
    ]
}

/// The low six bytes, most significant first.
pub open spec fn be48(x: u64) -> Seq<u8> {
    seq![
        (x / 0x100_0000_0000 % 0x100) as u8,
        (x / 0x1_0000_0000 % 0x100) as u8,
        (x / 0x100_0000 % 0x100) as u8,
        (x / 0x1_0000 % 0x100) as u8,
        (x / 0x100 % 0x100) as u8,
        (x % 0x100) as u8,
    ]
}

/// The 16-bit number at position `i`.
pub open spec fn u16_at(s: Seq<u8>, i: int) -> u16 {
    (s[i] * 0x100 + s[i + 1]) as u16
}

/// The 32-bit number at position `i`.
pub open spec fn u32_at(s: Seq<u8>, i: int) -> u32 {
    (s[i] * 0x100_0000 + s[i + 1] * 0x1_0000 + s[i + 2] * 0x100 + s[i + 3]) as u32
}

/// Reading a 16-bit number where it was written gives it back.
pub proof fn lemma_be16_read(s: Seq<u8>, i: int, x: u16)
    requires
        0 <= i,
        i + 2 <= s.len(),
        s.subrange(i, i + 2) == be16(x),
    ensures
        u16_at(s, i) == x,
{
    let t = s.subrange(i, i + 2);
    assert(t[0] == s[i] && t[1] == s[i + 1]);
}

/// Reading a 32-bit number where it was written gives it back.
pub proof fn lemma_be32_read(s: Seq<u8>, i: int, x: u32)
    requires
        0 <= i,
        i + 4 <= s.len(),
        s.subrange(i, i + 4) == be32(x),
    ensures
        u32_at(s, i) == x,
{
    let t = s.subrange(i, i + 4);
    assert(t[0] == s[i] && t[1] == s[i + 1] && t[2] == s[i + 2] && t[3] == s[i + 3]);
}

/// The number that bytes stand for, most significant first.
pub open spec fn number(s: Seq<u8>) -> int
    decreases s.len(),
{
    if s.len() == 0 {
        0
    } else {
        number(s.drop_last()) * 0x100 + s.last()
    }
}

/// How many numbers so many bytes can stand for.
pub open spec fn range(n: nat) -> int
    decreases n,
{
    if n == 0 {
        1
    } else {
        0x100 * range((n - 1) as nat)
    }
}

/// Bytes stand for a number within their range.
pub proof fn lemma_number_bound(s: Seq<u8>)
    ensures
        0 <= number(s) < range(s.len()),
    decreases s.len(),
{
    if s.len() > 0 {
        lemma_number_bound(s.drop_last());
    }
}

/// What stands before other bytes counts for as many times their range.
pub proof fn lemma_number_add(s: Seq<u8>, t: Seq<u8>)
    ensures
        number(s + t) == number(s) * range(t.len()) + number(t),
    decreases t.len(),
{
    if t.len() == 0 {
        assert(s + t =~= s);
    } else {
        assert((s + t).drop_last() =~= s + t.drop_last());
        lemma_number_add(s, t.drop_last());
        let r = range((t.len() - 1) as nat);
        assert((number(s) * r) * 0x100 == number(s) * (0x100 * r)) by (nonlinear_arith);
    }
}

/// As many bytes that stand for the same number are the same.
pub proof fn lemma_number_injective(s: Seq<u8>, t: Seq<u8>)
    requires
        s.len() == t.len(),
        number(s) == number(t),
    ensures
        s == t,
    decreases s.len(),
{
    if s.len() > 0 {
        assert(s.last() == t.last());
        lemma_number_injective(s.drop_last(), t.drop_last());
        assert(s =~= s.drop_last().push(s.last()));
        assert(t =~= t.drop_last().push(t.last()));
    }
    assert(s =~= t);
}

proof fn lemma_number_2(s: Seq<u8>)
    requires
        s.len() == 2,
    ensures
        number(s) == s[0] * 0x100 + s[1],
{
    reveal_with_fuel(number, 3);
    assert(s.drop_last().drop_last() =~= Seq::<u8>::empty());
}

/// What four bytes stand for.
pub proof fn lemma_number_4(s: Seq<u8>)
    requires
        s.len() == 4,
    ensures
        number(s) == s[0] * 0x100_0000 + s[1] * 0x1_0000 + s[2] * 0x100 + s[3],
{
    let t = s.drop_last().drop_last();
    lemma_number_2(t);
    assert(number(s.drop_last()) == number(t) * 0x100 + s[2]);
}

/// The bytes of a number stand for it.
pub proof fn law_bytes_stand_for_number(x: u16, y: u32, z: u64)
    ensures
        be16(x).len() == 2 && number(be16(x)) == x,
        be32(y).len() == 4 && number(be32(y)) == y,
        be48(z).len() == 6 && number(be48(z)) == z % 0x1_0000_0000_0000,
{
    lemma_number_2(be16(x));
    lemma_number_4(be32(y));
    lemma_split_32(y);
    let b = be48(z);
    lemma_number_4(b.drop_last().drop_last());
    assert(number(b.drop_last()) == number(b.drop_last().drop_last()) * 0x100 + b[4]);
    lemma_split_48(z);
}

proof fn lemma_split_32(y: u32)
    ensures
        y / 0x100_0000 * 0x100_0000 + y / 0x1_0000 % 0x100 * 0x1_0000 + y / 0x100 % 0x100 * 0x100 + y
            % 0x100 == y,
{
    let a = y / 0x100;
    let b = a / 0x100;
    assert(b == y / 0x1_0000 && b / 0x100 == y / 0x100_0000);
}

proof fn lemma_split_48(z: u64)
    ensures
        z / 0x100_0000_0000 % 0x100 * 0x100_0000_0000 + z / 0x1_0000_0000 % 0x100 * 0x1_0000_0000 + z
            / 0x100_0000 % 0x100 * 0x100_0000 + z / 0x1_0000 % 0x100 * 0x1_0000 + z / 0x100 % 0x100
            * 0x100 + z % 0x100 == z % 0x1_0000_0000_0000,
{
    let a = z / 0x100;
    let b = a / 0x100;
    let c = b / 0x100;
    let d = c / 0x100;
    let e = d / 0x100;
    let f = e / 0x100;
    assert(b == z / 0x1_0000);
    assert(c == z / 0x100_0000);
    assert(d == z / 0x1_0000_0000);
    assert(e == z / 0x100_0000_0000);
    assert(f == z / 0x1_0000_0000_0000);
    assert(z == f * 0x1_0000_0000_0000 + z % 0x1_0000_0000_0000);
}

/// A number in a packet is what its bytes stand for.
pub proof fn law_read_number(s: Seq<u8>, i: int)
    ensures
        0 <= i && i + 2 <= s.len() ==> u16_at(s, i) == number(s.subrange(i, i + 2)),
        0 <= i && i + 4 <= s.len() ==> u32_at(s, i) == number(s.subrange(i, i + 4)),
{
    if 0 <= i && i + 2 <= s.len() {
        lemma_number_2(s.subrange(i, i + 2));
    }
    if 0 <= i && i + 4 <= s.len() {
        lemma_number_4(s.subrange(i, i + 4));
    }
}

/// Read a 16-bit number at `i`.
pub fn read_u16(s: &[u8], i: usize) -> (x: u16)
    requires
        i + 2 <= s@.len(),
    ensures
        x == u16_at(s@, i as int),
{
    s[i] as u16 * 0x100 + s[i + 1] as u16
}

/// Read a 32-bit number at `i`.
pub fn read_u32(s: &[u8], i: usize) -> (x: u32)
    requires
        i + 4 <= s@.len(),
    ensures
        x == u32_at(s@, i as int),
{
    s[i] as u32 * 0x100_0000 + s[i + 1] as u32 * 0x1_0000 + s[i + 2] as u32 * 0x100
        + s[i + 3] as u32
}

/// The two bytes of `x`.
pub fn bytes_u16(x: u16) -> (b: [u8; 2])
    ensures
        b@ == be16(x),
{
    [(x / 0x100) as u8, (x % 0x100) as u8]
}

/// The four bytes of `x`.
pub fn bytes_u32(x: u32) -> (b: [u8; 4])
    ensures
        b@ == be32(x),
{
    [
        (x / 0x100_0000) as u8,
        (x / 0x1_0000 % 0x100) as u8,
        (x / 0x100 % 0x100) as u8,
        (x % 0x100) as u8,
    ]
}

/// The low six bytes of `x`.
pub fn bytes_u48(x: u64) -> (b: [u8; 6])
    ensures
        b@ == be48(x),
{
    [
        (x / 0x100_0000_0000 % 0x100) as u8,
        (x / 0x1_0000_0000 % 0x100) as u8,
        (x / 0x100_0000 % 0x100) as u8,
        (x / 0x1_0000 % 0x100) as u8,
        (x / 0x100 % 0x100) as u8,
        (x % 0x100) as u8,
    ]
}

/// Append a 16-bit number.
pub fn push_u16(v: &mut Vec<u8>, x: u16)
    ensures
        final(v)@ == old(v)@ + be16(x),
{
    v.push((x / 0x100) as u8);
    v.push((x % 0x100) as u8);
    assert(v@ =~= old(v)@ + be16(x));
}

/// Append a 32-bit number.
pub fn push_u32(v: &mut Vec<u8>, x: u32)
    ensures
        final(v)@ == old(v)@ + be32(x),
{
    v.push((x / 0x100_0000) as u8);
    v.push((x / 0x1_0000 % 0x100) as u8);
    v.push((x / 0x100 % 0x100) as u8);
    v.push((x % 0x100) as u8);
    assert(v@ =~= old(v)@ + be32(x));
}

/// Append bytes.
pub fn push_bytes(v: &mut Vec<u8>, bytes: &[u8])
    ensures
        final(v)@ == old(v)@ + bytes@,
{
    v.extend_from_slice(bytes);
    assert(v@ =~= old(v)@ + bytes@);
}

/// Copy a stretch of bytes into a fresh vector.
pub fn copy_range(s: &[u8], from: usize, to: usize) -> (v: Vec<u8>)
    requires
        from <= to <= s@.len(),
    ensures
        v@ == s@.subrange(from as int, to as int),
{
    vstd::slice::slice_to_vec(vstd::slice::slice_subrange(s, from, to))
}

/// A buffer whose first bytes were overwritten.
pub open spec fn overwritten(old_bytes: Seq<u8>, bytes: Seq<u8>) -> Seq<u8> {
    bytes + old_bytes.subrange(bytes.len() as int, old_bytes.len() as int)
}

/// Overwrite the first bytes of a buffer.
pub fn put(buf: &mut [u8], bytes: &[u8])
    requires
        bytes@.len() <= old(buf)@.len(),
    ensures
        final(buf)@ == overwritten(old(buf)@, bytes@),
{
    let mut i: usize = 0;
    while i < bytes.len()
        invariant
            i <= bytes@.len() <= buf@.len(),
            buf@.len() == old(buf)@.len(),
            forall|k: int| 0 <= k < i ==> buf@[k] == bytes@[k],
            forall|k: int| i <= k < buf@.len() ==> buf@[k] == old(buf)@[k],
        decreases bytes@.len() - i,
    {
        buf[i] = bytes[i];
        i += 1;
    }
    assert(buf@ =~= overwritten(old(buf)@, bytes@));
}

/// Append zeros.
pub fn push_zeros(v: &mut Vec<u8>, n: usize)
    ensures
        final(v)@ == old(v)@ + Seq::new(n as nat, |i: int| 0u8),
{
    let mut i: usize = 0;
    while i < n
        invariant
            i <= n,
            v@ == old(v)@ + Seq::new(i as nat, |k: int| 0u8),
        decreases n - i,
    {
        v.push(0);
        i += 1;
        assert(v@ =~= old(v)@ + Seq::new(i as nat, |k: int| 0u8));
    }
    assert(v@ =~= old(v)@ + Seq::new(n as nat, |k: int| 0u8));
}

} // verus!
