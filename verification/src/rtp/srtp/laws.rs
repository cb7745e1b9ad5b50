//! What stands in a protected packet, byte by byte.

use crate::rtp::crypto;
use crate::rtp::srtp;
use crate::rtp::srtp::{SessionKeys, SrtpCipherSuite, SrtpContext};
use crate::wire;
use vstd::prelude::*;

verus! {

/// The input of the cipher for block `n` of a keystream, as a number of 128
/// bits: the vector of 112 bits, then the block counter of 16.
pub open spec fn counts(block: Seq<u8>, vector: u128, n: int) -> bool {
    block.len() == 16 && wire::number(block) == vector * 0x1_0000 + n % 0x1_0000
}

/// The exclusive or of bytes stands for the exclusive or of their numbers.
proof fn lemma_number_xor(s: Seq<u8>, t: Seq<u8>)
    requires
        s.len() == t.len(),
        s.len() <= 14,
    ensures
        wire::number(s) < 0x1_0000_0000_0000_0000_0000_0000_0000,
        wire::number(t) < 0x1_0000_0000_0000_0000_0000_0000_0000,
        wire::number(Seq::new(s.len(), |i: int| s[i] ^ t[i])) == (wire::number(s) as u128) ^ (
        wire::number(t) as u128),
    decreases s.len(),
{
    lemma_number_112(s);
    lemma_number_112(t);
    let u = Seq::new(s.len(), |i: int| s[i] ^ t[i]);
    if s.len() == 0 {
        assert(0u128 ^ 0u128 == 0u128) by (bit_vector);
    } else {
        let s1 = s.drop_last();
        let t1 = t.drop_last();
        lemma_number_xor(s1, t1);
        lemma_number_bound_104(s1);
        lemma_number_bound_104(t1);
        assert(u.drop_last() =~= Seq::new(s1.len(), |i: int| s1[i] ^ t1[i]));
        let a = wire::number(s1) as u128;
        let b = wire::number(t1) as u128;
        let x = s.last();
        let y = t.last();
        assert(((a * 0x100 + x) as u128) ^ ((b * 0x100 + y) as u128) == (a ^ b) * 0x100 + (x ^ y))
            by (bit_vector)
            requires
                a < 0x100_0000_0000_0000_0000_0000_0000,
                b < 0x100_0000_0000_0000_0000_0000_0000,
        ;
    }
}

proof fn lemma_number_112(s: Seq<u8>)
    requires
        s.len() <= 14,
    ensures
        0 <= wire::number(s) < 0x1_0000_0000_0000_0000_0000_0000_0000,
{
    wire::lemma_number_bound(s);
    lemma_range_grows(s.len(), 14);
    assert(wire::range(14) == 0x1_0000_0000_0000_0000_0000_0000_0000) by {
        reveal_with_fuel(wire::range, 15);
    }
}

proof fn lemma_number_bound_104(s: Seq<u8>)
    requires
        s.len() <= 13,
    ensures
        0 <= wire::number(s) < 0x100_0000_0000_0000_0000_0000_0000,
{
    wire::lemma_number_bound(s);
    lemma_range_grows(s.len(), 13);
    assert(wire::range(13) == 0x100_0000_0000_0000_0000_0000_0000) by {
        reveal_with_fuel(wire::range, 14);
    }
}

proof fn lemma_range_grows(n: nat, m: nat)
    requires
        n <= m,
    ensures
        1 <= wire::range(n) <= wire::range(m),
    decreases m,
{
    if n < m {
        lemma_range_grows(n, (m - 1) as nat);
    } else if n > 0 {
        lemma_range_grows((n - 1) as nat, (n - 1) as nat);
    }
}

/// The number of the input block, from that of the vector.
proof fn lemma_counter_number(iv: Seq<u8>, n: int)
    requires
        iv.len() == 14,
    ensures
        srtp::counter_block(iv, n).len() == 16,
        wire::number(srtp::counter_block(iv, n)) == wire::number(iv) * 0x1_0000 + n % 0x1_0000,
{
    let c = (n % 0x1_0000) as u16;
    wire::law_bytes_stand_for_number(c, 0, 0);
    wire::lemma_number_add(iv, wire::be16(c));
    reveal_with_fuel(wire::range, 3);
}

proof fn lemma_packet_number(salt: Seq<u8>, ssrc: u32, index: u64)
    requires
        salt.len() == 14,
        index < 0x1_0000_0000_0000,
    ensures
        srtp::packet_iv(salt, ssrc, index).len() == 14,
        wire::number(srtp::packet_iv(salt, ssrc, index)) == (wire::number(salt) as u128) ^ ((ssrc
            * 0x1_0000_0000_0000 + index) as u128),
{
    let zeros = seq![0u8, 0u8, 0u8, 0u8];
    let s = wire::be32(ssrc);
    let x = wire::be48(index);
    wire::law_bytes_stand_for_number(0, ssrc, index);
    wire::law_bytes_stand_for_number(0, 0, 0);
    assert(zeros =~= wire::be32(0));
    wire::lemma_number_add(zeros, s);
    wire::lemma_number_add(zeros + s, x);
    reveal_with_fuel(wire::range, 7);
    let field = zeros + s + x;
    lemma_number_xor(field, salt);
    let a = wire::number(field) as u128;
    let b = wire::number(salt) as u128;
    assert(a ^ b == b ^ a) by (bit_vector);
    assert(srtp::packet_iv(salt, ssrc, index) =~= Seq::new(14, |i: int| field[i] ^ salt[i]));
}

/// A packet's payload is encrypted with the keystream that the standard lays
/// down: byte `j` goes with byte `j % 16` of the encryption of one number of 128
/// bits, which is the salt, the source and the index, each shifted to its place
/// and mixed, with the number of the block added at the end.
pub proof fn law_keystream(
    key: Seq<u8>,
    salt: Seq<u8>,
    ssrc: u32,
    index: u64,
    data: Seq<u8>,
    j: int,
    block: Seq<u8>,
)
    requires
        salt.len() == 14,
        index < 0x1_0000_0000_0000,
        data.len() + 15 <= usize::MAX,
        0 <= j < data.len(),
        block.len() == 16,
        wire::number(block) == ((wire::number(salt) * 0x1_0000) as u128 ^ (ssrc
            * 0x1_0000_0000_0000_0000) as u128 ^ (index * 0x1_0000) as u128) + j / 16 % 0x1_0000,
    ensures
        srtp::aes_cm(key, salt, ssrc, index, data).len() == data.len(),
        srtp::aes_cm(key, salt, ssrc, index, data)[j] == data[j] ^ crypto::aes128_block(
            key,
            block,
        )@[j % 16],
{
    lemma_number_112(salt);
    let s = wire::number(salt) as u128;
    let c = ssrc as u128;
    let x = index as u128;
    assert(((s * 0x1_0000) as u128) ^ ((c * 0x1_0000_0000_0000_0000) as u128) ^ ((x * 0x1_0000) as u128)
        == (s ^ ((c * 0x1_0000_0000_0000 + x) as u128)) * 0x1_0000) by (bit_vector)
        requires
            s < 0x1_0000_0000_0000_0000_0000_0000_0000,
            c < 0x1_0000_0000,
            x < 0x1_0000_0000_0000,
    ;
    lemma_packet_number(salt, ssrc, index);
    let iv = srtp::packet_iv(salt, ssrc, index);
    lemma_counter_number(iv, j / 16);
    wire::lemma_number_injective(block, srtp::counter_block(iv, j / 16));
}

/// The vector of a packet with a source and an index.
pub open spec fn vector_of(salt: Seq<u8>, ssrc: u32, index: u64) -> u128 {
    (wire::number(salt) as u128) ^ ((ssrc * 0x1_0000_0000_0000 + index) as u128)
}

proof fn lemma_keystream_at(
    key: Seq<u8>,
    salt: Seq<u8>,
    ssrc: u32,
    index: u64,
    data: Seq<u8>,
    j: int,
    block: Seq<u8>,
)
    requires
        salt.len() == 14,
        index < 0x1_0000_0000_0000,
        data.len() + 15 <= usize::MAX,
        0 <= j < data.len(),
        counts(block, vector_of(salt, ssrc, index), j / 16),
    ensures
        srtp::aes_cm(key, salt, ssrc, index, data)[j] == data[j] ^ crypto::aes128_block(
            key,
            block,
        )@[j % 16],
{
    lemma_packet_number(salt, ssrc, index);
    let iv = srtp::packet_iv(salt, ssrc, index);
    lemma_counter_number(iv, j / 16);
    wire::lemma_number_injective(block, srtp::counter_block(iv, j / 16));
}

proof fn lemma_prf_number(salt: Seq<u8>, label: u8, r: u64)
    requires
        salt.len() == 14,
        r < 0x1_0000_0000_0000,
    ensures
        srtp::prf_iv(salt, label, r).len() == 14,
        wire::number(srtp::prf_iv(salt, label, r)) == (wire::number(salt) as u128) ^ ((label
            * 0x1_0000_0000_0000 + r) as u128),
{
    let zeros = Seq::new(7, |i: int| 0u8);
    let id = seq![label];
    let x = wire::be48(r);
    reveal_with_fuel(wire::range, 8);
    reveal_with_fuel(wire::number, 8);
    assert(wire::number(zeros) == 0) by {
        lemma_zeros(zeros);
    }
    assert(wire::number(id) == label) by {
        assert(id.drop_last() =~= Seq::<u8>::empty());
    }
    wire::law_bytes_stand_for_number(0, 0, r);
    wire::lemma_number_add(zeros, id);
    wire::lemma_number_add(zeros + id, x);
    let field = zeros + id + x;
    lemma_number_xor(salt, field);
    let iv = srtp::prf_iv(salt, label, r);
    assert forall|i: int| 0 <= i < 14 implies iv[i] == salt[i] ^ field[i] by {
        let a = salt[i];
        assert(a ^ 0u8 == a) by (bit_vector);
        if i >= 7 {
            assert(field[i] == (id + x)[i - 7]);
        }
    }
    assert(iv =~= Seq::new(14, |i: int| salt[i] ^ field[i]));
}

proof fn lemma_zeros(s: Seq<u8>)
    requires
        forall|i: int| 0 <= i < s.len() ==> s[i] == 0,
    ensures
        wire::number(s) == 0,
    decreases s.len(),
{
    if s.len() > 0 {
        lemma_zeros(s.drop_last());
    }
}

/// Byte `i` of what is derived under a label is byte `i % 16` of the encryption
/// of one number under the master key: the master salt mixed with label and
/// derivation index, and the number of the block.
pub proof fn law_derived_bytes(
    key: Seq<u8>,
    salt: Seq<u8>,
    label: u8,
    r: u64,
    n: nat,
    i: int,
    block: Seq<u8>,
)
    requires
        salt.len() == 14,
        r < 0x1_0000_0000_0000,
        0 <= i < n,
        counts(
            block,
            (wire::number(salt) as u128) ^ ((label * 0x1_0000_0000_0000 + r) as u128),
            i / 16,
        ),
    ensures
        srtp::prf(key, salt, label, r, n).len() == n,
        srtp::prf(key, salt, label, r, n)[i] == crypto::aes128_block(key, block)@[i % 16],
{
    lemma_prf_number(salt, label, r);
    let iv = srtp::prf_iv(salt, label, r);
    lemma_counter_number(iv, i / 16);
    wire::lemma_number_injective(block, srtp::counter_block(iv, i / 16));
}

/// Each session key has a label of its own: 0 to 2 for the keys of RTP, 3 to 5
/// for those of RTCP; first comes the key to encrypt with, then the one to
/// authenticate with, then the salt.
pub proof fn law_key_labels(
    keys: SessionKeys,
    key: Seq<u8>,
    salt: Seq<u8>,
    rtcp: bool,
    r: u64,
    i: int,
    block: Seq<u8>,
)
    requires
        keys.derived_from(key, salt, rtcp, r),
        salt.len() == 14,
        r < 0x1_0000_0000_0000,
        0 <= i < 20,
    ensures
        ({
            let first = if rtcp {
                3
            } else {
                0
            };
            let at = |label: int|
                counts(
                    block,
                    (wire::number(salt) as u128) ^ ((label * 0x1_0000_0000_0000 + r) as u128),
                    i / 16,
                );
            &&& i < 16 && at(first) ==> keys.enc_key@[i] == crypto::aes128_block(key, block)@[i
                % 16]
            &&& at(first + 1) ==> keys.auth_key@[i] == crypto::aes128_block(key, block)@[i % 16]
            &&& i < 14 && at(first + 2) ==> keys.salt@[i] == crypto::aes128_block(key, block)@[i
                % 16]
        }),
{
    let first: u8 = if rtcp {
        3
    } else {
        0
    };
    let vector = |label: int|
        (wire::number(salt) as u128) ^ ((label * 0x1_0000_0000_0000 + r) as u128);
    if i < 16 && counts(block, vector(first as int), i / 16) {
        law_derived_bytes(key, salt, first, r, 16, i, block);
    }
    if counts(block, vector(first + 1), i / 16) {
        law_derived_bytes(key, salt, (first + 1) as u8, r, 20, i, block);
    }
    if i < 14 && counts(block, vector(first + 2), i / 16) {
        law_derived_bytes(key, salt, (first + 2) as u8, r, 14, i, block);
    }
}

/// Bytes of tag on an RTP packet: eighty bits, or thirty-two.
pub open spec fn tag_bytes(suite: SrtpCipherSuite) -> nat {
    if suite == SrtpCipherSuite::AesCm128HmacSha1_32 {
        4
    } else {
        10
    }
}

/// Where the payload of a packet begins: behind twelve bytes, four for each
/// contributing source, and the extension, if the flag for it is set.
pub open spec fn payload_starts(p: Seq<u8>, h: int) -> bool {
    let fixed = 12 + 4 * (p[0] as int % 16);
    &&& p.len() >= 12
    &&& h <= p.len()
    &&& if p[0] as int / 16 % 2 == 0 {
        h == fixed
    } else {
        fixed + 4 <= h && h - fixed - 4 == 4 * wire::number(p.subrange(fixed + 2, fixed + 4))
    }
}

proof fn lemma_payload_starts(p: Seq<u8>, h: int)
    ensures
        payload_starts(p, h) <==> h >= 0 && srtp::rtp_header(p) == Ok::<nat, Seq<char>>(h as nat),
{
    let fixed = 12 + 4 * (p[0] as int % 16);
    assert(p[0] as int / 16 % 2 == 0 || p[0] as int / 16 % 2 == 1);
    wire::law_read_number(p, fixed + 2);
}

/// What a sender makes of a packet: the header as it was, the payload under the
/// keystream of its source and index, the key identifier, and a tag over all
/// before the identifier and the rollover counter of the index.
#[verifier::spinoff_prover]
pub proof fn law_sealed_rtp(
    ctx: SrtpContext,
    packet: Seq<u8>,
    h: int,
    covered: Seq<u8>,
    i: int,
    block: Seq<u8>,
)
    requires
        ctx.protect_rtp_outcome(packet).1 is Ok,
        packet.len() + 15 <= usize::MAX,
        payload_starts(packet, h),
    ensures
        ({
            let (after, r) = ctx.protect_rtp_outcome(packet);
            let sealed = r->Ok_0;
            let n = packet.len() as int;
            let t = tag_bytes(ctx.suite) as int;
            let m = match ctx.mki {
                Some(v) => v@,
                None => Seq::<u8>::empty(),
            };
            let index = after.last_sent_index;
            let ssrc = wire::number(packet.subrange(8, 12)) as u32;
            &&& index < 0x1_0000_0000_0000
            &&& index % 0x1_0000 == wire::number(packet.subrange(2, 4))
            &&& after.packets_encrypted == ctx.packets_encrypted + 1
            &&& sealed.len() == n + m.len() + t
            &&& sealed.subrange(0, h) == packet.subrange(0, h)
            &&& h <= i < n && counts(
                block,
                vector_of(ctx.rtp_keys.salt@, ssrc, index),
                (i - h) / 16,
            ) ==> sealed[i] == packet[i] ^ crypto::aes128_block(ctx.rtp_keys.enc_key@, block)@[(i
                - h) % 16]
            &&& sealed.subrange(n, n + m.len()) == m
            &&& covered.len() == n + 4 && covered.subrange(0, n) == sealed.subrange(0, n)
                && wire::number(covered.subrange(n, n + 4)) == index / 0x1_0000 ==> sealed.subrange(
                n + m.len(),
                n + m.len() + t,
            ) == crypto::hmac_sha1_tag(ctx.rtp_keys.auth_key@, covered)@.subrange(0, t)
        }),
{
    let after = ctx.protect_rtp_outcome(packet).0;
    let sealed = ctx.protect_rtp_outcome(packet).1->Ok_0;
    let n = packet.len() as int;
    let index = after.last_sent_index;
    lemma_payload_starts(packet, h);
    wire::law_read_number(packet, 2);
    wire::law_read_number(packet, 8);
    srtp::lemma_send_index(ctx, wire::u16_at(packet, 2));
    let ssrc = wire::u32_at(packet, 8);
    let plain = packet.subrange(h, n);
    let cipher = srtp::aes_cm(ctx.rtp_keys.enc_key@, ctx.rtp_keys.salt@, ssrc, index, plain);
    let body = packet.subrange(0, h) + cipher;
    let roc = (index / 0x1_0000) as u32;
    let tag = srtp::rtp_tag(ctx.rtp_keys.auth_key@, body, roc, ctx.suite.tag_len());
    assert(sealed =~= body + ctx.mki_bytes() + tag);
    assert(cipher.len() == plain.len());
    assert(sealed.subrange(0, h) =~= packet.subrange(0, h));
    assert(sealed.subrange(0, n) =~= body);
    assert(sealed.subrange(n, n + ctx.mki_bytes().len()) =~= ctx.mki_bytes());
    assert(sealed.subrange(n + ctx.mki_bytes().len(), sealed.len() as int) =~= tag);
    if h <= i < n && counts(block, vector_of(ctx.rtp_keys.salt@, ssrc, index), (i - h) / 16) {
        lemma_keystream_at(
            ctx.rtp_keys.enc_key@,
            ctx.rtp_keys.salt@,
            ssrc,
            index,
            plain,
            i - h,
            block,
        );
        assert(sealed[i] == cipher[i - h]);
    }
    if covered.len() == n + 4 && covered.subrange(0, n) == sealed.subrange(0, n) && wire::number(
        covered.subrange(n, n + 4),
    ) == index / 0x1_0000 {
        wire::law_bytes_stand_for_number(0, roc, 0);
        wire::lemma_number_injective(covered.subrange(n, n + 4), wire::be32(roc));
        assert(covered =~= covered.subrange(0, n) + covered.subrange(n, n + 4));
        assert(covered =~= body + wire::be32(roc));
    }
}

/// The index under which a packet is sent ends in its sequence number. It stays
/// in the rollover period of the packet before, unless the number has fallen by
/// more than half its range: then the next period has begun.
pub proof fn law_send_index(ctx: SrtpContext, seq: u16)
    requires
        ctx.send_counter < 0xFFFF_FFFF_0000,
    ensures
        ({
            let last = ctx.send_counter as int;
            let index = ctx.send_index(seq) as int;
            &&& index % 0x1_0000 == seq
            &&& !ctx.send_initialized ==> index == seq
            &&& ctx.send_initialized ==> last - 0x8000 <= index < last + 0x1_0000
            &&& ctx.send_initialized ==> (index / 0x1_0000 == last / 0x1_0000 || index < last
                + 0x8000)
        }),
{
}

/// A packet is refused for sending if it is too short, its header is not whole,
/// the key is used up, or its index is not above that of the last one sent; and
/// for nothing else.
pub proof fn law_when_sent(ctx: SrtpContext, packet: Seq<u8>)
    ensures
        ctx.protect_rtp_outcome(packet).1 is Ok <==> {
            &&& exists|h: int| payload_starts(packet, h)
            &&& ctx.packets_encrypted < 0x1_0000_0000_0000
            &&& ctx.packets_encrypted == 0 || ctx.send_index(wire::u16_at(packet, 2))
                > ctx.last_sent_index
        },
        ctx.protect_rtp_outcome(packet).1 is Err ==> ctx.protect_rtp_outcome(
            packet,
        ).0.last_sent_index == ctx.last_sent_index,
{
    if exists|h: int| payload_starts(packet, h) {
        let h = choose|h: int| payload_starts(packet, h);
        lemma_payload_starts(packet, h);
    }
    if srtp::rtp_header(packet) is Ok {
        lemma_payload_starts(packet, srtp::rtp_header(packet)->Ok_0 as int);
    }
}

/// A receiver places a packet at the index that ends in its sequence number and
/// lies nearest to the highest so far.
pub proof fn law_receive_index_nearest(ctx: SrtpContext, seq: u16)
    ensures
        ctx.recv_index(seq) % 0x1_0000 == seq,
        !ctx.initialized ==> ctx.recv_index(seq) == seq,
        ctx.initialized && 0 < ctx.roc < u32::MAX ==> -0x8000 <= ctx.recv_index(seq) - (ctx.roc
            * 0x1_0000 + ctx.s_l) <= 0x8000,
{
}

/// An index may be received exactly if it is less than 128 below the highest
/// and was not seen.
pub proof fn law_fresh_is_not_seen(window: u128, base: u64, index: u64)
    ensures
        srtp::rtp_fresh(window, base, index) <==> index + 128 > base && !srtp::rtp_seen(
            window,
            base,
            index,
        ),
{
}

/// As `law_fresh_is_not_seen`, with 64 for RTCP.
pub proof fn law_rtcp_fresh_is_not_seen(window: u64, base: u64, index: u64)
    ensures
        srtp::rtcp_fresh(window, base, index) <==> index + 64 > base && !srtp::rtcp_seen(
            window,
            base,
            index,
        ),
{
}

/// Where the parts of a received packet end: what is authenticated, then the
/// key identifier, then the tag.
pub open spec fn authenticated_len(ctx: SrtpContext, packet: Seq<u8>) -> int {
    packet.len() - tag_bytes(ctx.suite) - match ctx.mki_length {
        Some(n) => n as int,
        None => 0,
    }
}

/// The index that a receiver takes a packet to have.
pub open spec fn index_heard(ctx: SrtpContext, packet: Seq<u8>) -> u64 {
    ctx.hearing(wire::number(packet.subrange(8, 12)) as u32).recv_index(
        wire::number(packet.subrange(2, 4)) as u16,
    )
}

/// Only what carries the right tag is opened: the tag over all before the
/// identifier and the rollover counter that the receiver takes the packet to
/// have.
pub proof fn law_opened_rtp_is_authentic(ctx: SrtpContext, packet: Seq<u8>, covered: Seq<u8>)
    requires
        ctx.unprotect_rtp_outcome(packet).1 is Ok,
        ({
            let n = authenticated_len(ctx, packet);
            &&& covered.len() == n + 4
            &&& covered.subrange(0, n) == packet.subrange(0, n)
            &&& wire::number(covered.subrange(n, n + 4)) == index_heard(ctx, packet) / 0x1_0000
        }),
    ensures
        authenticated_len(ctx, packet) >= 12,
        packet.subrange(packet.len() - tag_bytes(ctx.suite), packet.len() as int)
            == crypto::hmac_sha1_tag(ctx.rtp_keys.auth_key@, covered)@.subrange(
            0,
            tag_bytes(ctx.suite) as int,
        ),
{
    let n = authenticated_len(ctx, packet);
    let body = ctx.rtp_body(packet);
    wire::law_read_number(packet, 2);
    wire::law_read_number(packet, 8);
    let seq = wire::u16_at(packet, 2);
    let heard = ctx.hearing(wire::u32_at(packet, 8));
    let index = heard.recv_index(seq);
    let roc = heard.roc_for(seq);
    assert(index == roc * 0x1_0000 + seq);
    assert(index / 0x1_0000 == roc);
    wire::law_bytes_stand_for_number(0, roc, 0);
    wire::lemma_number_injective(covered.subrange(n, n + 4), wire::be32(roc));
    assert(body =~= packet.subrange(0, n));
    assert(covered =~= body + wire::be32(roc));
}

/// What is opened has its header as it was, and its payload under the keystream
/// of its source and index.
pub proof fn law_opened_rtp(ctx: SrtpContext, packet: Seq<u8>, h: int, i: int, block: Seq<u8>)
    requires
        ctx.unprotect_rtp_outcome(packet).1 is Ok,
        packet.len() + 15 <= usize::MAX,
        payload_starts(packet.subrange(0, authenticated_len(ctx, packet)), h),
        0 <= i < authenticated_len(ctx, packet),
        h <= i ==> counts(
            block,
            vector_of(
                ctx.rtp_keys.salt@,
                wire::number(packet.subrange(8, 12)) as u32,
                index_heard(ctx, packet),
            ),
            (i - h) / 16,
        ),
    ensures
        ({
            let plain = ctx.unprotect_rtp_outcome(packet).1->Ok_0;
            &&& plain.len() == authenticated_len(ctx, packet)
            &&& plain[i] == if i < h {
                packet[i]
            } else {
                packet[i] ^ crypto::aes128_block(ctx.rtp_keys.enc_key@, block)@[(i - h) % 16]
            }
        }),
{
    let n = authenticated_len(ctx, packet);
    let body = ctx.rtp_body(packet);
    wire::law_read_number(packet, 2);
    wire::law_read_number(packet, 8);
    let ssrc = wire::u32_at(packet, 8);
    let index = ctx.hearing(ssrc).recv_index(wire::u16_at(packet, 2));
    assert(body =~= packet.subrange(0, n));
    lemma_payload_starts(body, h);
    let cipher = body.subrange(h, n);
    if h <= i {
        lemma_keystream_at(
            ctx.rtp_keys.enc_key@,
            ctx.rtp_keys.salt@,
            ssrc,
            index,
            cipher,
            i - h,
            block,
        );
    }
}

/// Of two packets that differ in nothing but the tag, a receiver opens at most
/// one.
pub proof fn law_one_tag_opens(ctx: SrtpContext, p: Seq<u8>, q: Seq<u8>)
    requires
        p.len() == q.len(),
        p != q,
        forall|i: int|
            0 <= i < p.len() - tag_bytes(ctx.suite) ==> #[trigger] p[i] == q[i],
    ensures
        ctx.unprotect_rtp_outcome(p).1 is Err || ctx.unprotect_rtp_outcome(q).1 is Err,
{
    let t = tag_bytes(ctx.suite) as int;
    if ctx.unprotect_rtp_outcome(p).1 is Ok && ctx.unprotect_rtp_outcome(q).1 is Ok {
        assert(ctx.rtp_body(p) =~= ctx.rtp_body(q));
        let a = p.subrange(p.len() - t, p.len() as int);
        let b = q.subrange(q.len() - t, q.len() as int);
        assert(a == b);
        assert forall|i: int| 0 <= i < p.len() implies p[i] == q[i] by {
            if i >= p.len() - t {
                assert(p[i] == a[i - (p.len() - t)]);
                assert(q[i] == b[i - (p.len() - t)]);
            }
        }
        assert(p =~= q);
    }
}

/// A packet from another source than before is taken as by a receiver that has
/// heard nothing.
pub proof fn law_other_source_starts_over(ctx: SrtpContext, packet: Seq<u8>, before: u32)
    requires
        ctx.wf(),
        ctx.current_recv_ssrc == Some(before),
        packet.len() >= 12,
        before != wire::number(packet.subrange(8, 12)),
    ensures
        ({
            let deaf = SrtpContext {
                roc: 0,
                s_l: 0,
                initialized: false,
                replay_window: 0,
                replay_window_base: 0,
                current_recv_ssrc: None,
                ..ctx
            };
            ctx.unprotect_rtp_outcome(packet).1 == deaf.unprotect_rtp_outcome(packet).1
        }),
{
    wire::law_read_number(packet, 8);
    let ssrc = wire::u32_at(packet, 8);
    let deaf = SrtpContext {
        roc: 0,
        s_l: 0,
        initialized: false,
        replay_window: 0,
        replay_window_base: 0,
        current_recv_ssrc: None,
        ..ctx
    };
    assert(ctx.hearing(ssrc) == deaf.hearing(ssrc));
}

/// Refusals are counted, up to a hundred in a row; a replay is not counted, and
/// a packet that opens ends the row.
pub proof fn law_refusals_counted(ctx: SrtpContext, packet: Seq<u8>)
    requires
        ctx.wf(),
    ensures
        ({
            let (after, r) = ctx.unprotect_rtp_outcome(packet);
            let next = if ctx.error_count == 99 {
                0
            } else {
                ctx.error_count + 1
            };
            &&& r is Ok ==> after.error_count == 0
            &&& r is Err ==> after.error_count == ctx.error_count || after.error_count == next
            &&& packet.len() < 12 ==> after.error_count == next
        }),
{
}

/// What a sender makes of an RTCP packet: the first eight bytes as they were,
/// the rest under the keystream of its source and index, the index of 31 bits
/// behind a flag that is set, the key identifier, and a tag of ten bytes over
/// all before the identifier. The indices count up from nothing.
#[verifier::spinoff_prover]
pub proof fn law_sealed_rtcp(ctx: SrtpContext, packet: Seq<u8>, i: int, block: Seq<u8>)
    requires
        packet.len() + 15 <= usize::MAX,
    ensures
        ctx.protect_rtcp_outcome(packet).1 is Ok <==> packet.len() >= 8 && ctx.srtcp_index
            < 0x8000_0000,
        ctx.protect_rtcp_outcome(packet).1 is Err ==> ctx.protect_rtcp_outcome(packet).0 == ctx,
        ctx.protect_rtcp_outcome(packet).1 is Ok ==> ({
            let (after, r) = ctx.protect_rtcp_outcome(packet);
            let sealed = r->Ok_0;
            let n = packet.len() as int;
            let m = match ctx.mki {
                Some(v) => v@,
                None => Seq::<u8>::empty(),
            };
            let ssrc = wire::number(packet.subrange(4, 8)) as u32;
            let index = ctx.srtcp_index;
            &&& after.srtcp_index == index + 1
            &&& sealed.len() == n + 4 + m.len() + 10
            &&& sealed.subrange(0, 8) == packet.subrange(0, 8)
            &&& 8 <= i < n && counts(
                block,
                vector_of(ctx.rtcp_keys.salt@, ssrc, index as u64),
                (i - 8) / 16,
            ) ==> sealed[i] == packet[i] ^ crypto::aes128_block(ctx.rtcp_keys.enc_key@, block)@[(i
                - 8) % 16]
            &&& wire::number(sealed.subrange(n, n + 4)) == 0x8000_0000 + index
            &&& sealed.subrange(n + 4, n + 4 + m.len()) == m
            &&& sealed.subrange(n + 4 + m.len(), sealed.len() as int) == crypto::hmac_sha1_tag(
                ctx.rtcp_keys.auth_key@,
                sealed.subrange(0, n + 4),
            )@.subrange(0, 10)
        }),
{
    if packet.len() >= 8 && ctx.srtcp_index < 0x8000_0000 {
        let n = packet.len() as int;
        let index = ctx.srtcp_index;
        wire::law_read_number(packet, 4);
        let ssrc = wire::u32_at(packet, 4);
        let plain = packet.subrange(8, n);
        let cipher = srtp::aes_cm(
            ctx.rtcp_keys.enc_key@,
            ctx.rtcp_keys.salt@,
            ssrc,
            index as u64,
            plain,
        );
        let word = (0x8000_0000 + index) as u32;
        let body = packet.subrange(0, 8) + cipher + wire::be32(word);
        let tag = crypto::hmac_sha1_tag(ctx.rtcp_keys.auth_key@, body)@.subrange(0, 10);
        let sealed = ctx.sealed_rtcp(packet, index);
        wire::law_bytes_stand_for_number(0, word, 0);
        assert(cipher.len() == plain.len());
        assert(sealed =~= body + ctx.mki_bytes() + tag);
        assert(sealed.subrange(0, 8) =~= packet.subrange(0, 8));
        assert(sealed.subrange(0, n + 4) =~= body);
        assert(sealed.subrange(n, n + 4) =~= wire::be32(word));
        assert(sealed.subrange(n + 4, n + 4 + ctx.mki_bytes().len()) =~= ctx.mki_bytes());
        assert(sealed.subrange(n + 4 + ctx.mki_bytes().len(), sealed.len() as int) =~= tag);
        if 8 <= i < n && counts(
            block,
            vector_of(ctx.rtcp_keys.salt@, ssrc, index as u64),
            (i - 8) / 16,
        ) {
            lemma_keystream_at(
                ctx.rtcp_keys.enc_key@,
                ctx.rtcp_keys.salt@,
                ssrc,
                index as u64,
                plain,
                i - 8,
                block,
            );
            assert(sealed[i] == cipher[i - 8]);
        }
    }
}

/// An RTCP packet is opened exactly if it is long enough, carries the right tag,
/// and its index was not seen; one whose flag is not set is not encrypted.
pub proof fn law_opened_rtcp(ctx: SrtpContext, packet: Seq<u8>)
    requires
        ctx.wf(),
    ensures
        ({
            let (after, r) = ctx.unprotect_rtcp_outcome(packet);
            let m = match ctx.mki_length {
                Some(n) => n as int,
                None => 0,
            };
            let n = packet.len() - 10 - m;
            let word = wire::number(packet.subrange(n - 4, n));
            let index = (word % 0x8000_0000) as u64;
            let right = packet.subrange(packet.len() - 10, packet.len() as int)
                == crypto::hmac_sha1_tag(
                ctx.rtcp_keys.auth_key@,
                packet.subrange(0, n),
            )@.subrange(0, 10);
            &&& r is Ok <==> n >= 12 && right && (ctx.srtcp_replay_initialized
                ==> srtp::rtcp_fresh(
                ctx.srtcp_replay_window,
                ctx.srtcp_replay_window_base,
                index,
            ))
            &&& r is Err ==> after == ctx
            &&& r is Ok ==> r->Ok_0.len() == n - 4 && r->Ok_0.subrange(0, 8) == packet.subrange(
                0,
                8,
            )
            &&& r is Ok && word < 0x8000_0000 ==> r->Ok_0 == packet.subrange(0, n - 4)
        }),
{
    let m = ctx.mki_len() as int;
    let n = packet.len() - 10 - m;
    let body = packet.subrange(0, n);
    if n >= 12 {
        wire::law_read_number(body, n - 4);
        assert(body.subrange(n - 4, n) =~= packet.subrange(n - 4, n));
        let r = ctx.unprotect_rtcp_outcome(packet).1;
        let data = body.subrange(0, n - 4);
        assert(data =~= packet.subrange(0, n - 4));
        if r is Ok {
            assert(data.subrange(0, 8) =~= packet.subrange(0, 8));
            assert(r->Ok_0.subrange(0, 8) =~= packet.subrange(0, 8));
        }
    }
}

/// A packet that is accepted moves the receiver on to its index if that is the
/// highest so far, and never back; the replay window reaches up to the highest.
pub proof fn law_highest_index_kept(ctx: SrtpContext, seq: u16)
    ensures
        ({
            let index = ctx.recv_index(seq);
            let before = ctx.roc * 0x1_0000 + ctx.s_l;
            let a = ctx.accepting(seq);
            let after = a.roc * 0x1_0000 + a.s_l;
            &&& a.initialized
            &&& !ctx.initialized ==> after == index
            &&& ctx.initialized && index > before ==> after == index
            &&& ctx.initialized && index <= before ==> after == before
            &&& a.replay_window_base >= index
            &&& a.replay_window_base >= ctx.replay_window_base
            &&& a.replay_window_base == index || a.replay_window_base == ctx.replay_window_base
        }),
{
}

} // verus!
