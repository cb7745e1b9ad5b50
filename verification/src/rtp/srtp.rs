//! SRTP and SRTCP: AES-128 in counter mode with HMAC-SHA1.
//!
//! A context protects one direction of a stream. Sending refuses an index that
//! is not above the last one, since that would reuse keystream. Receiving
//! estimates the rollover counter and refuses indices already seen. Its replay
//! window moves for authenticated packets alone, and starts over when packets
//! come from another source.

pub mod laws;

use crate::error::{rtp_error, RtpSipError};
use crate::rtp::crypto;
use crate::rtp::crypto::{aes128_encrypt, hmac_sha1};
pub use crate::rtp::sdes::CryptoAttribute;
use crate::wire;
use crate::wire::{bytes_u16, bytes_u32, bytes_u48, copy_range, push_bytes, push_u32, read_u16, read_u32};
use vstd::prelude::*;
use vstd::slice::{slice_subrange, slice_to_vec};

verus! {

/// Consecutive failures after which the failure count starts over.
pub const SRTP_RESET_THRESHOLD: u32 = 100;

/// Packets that one key may encrypt: two to the power 48.
pub const KEY_LIFETIME_MAX: u64 = 0x1_0000_0000_0000;

/// Cipher suites.
#[derive(Debug, Clone, Copy, PartialEq, Eq, Structural)]
pub enum SrtpCipherSuite {
    /// `AES_CM_128_HMAC_SHA1_80`: 80-bit tag.
    AesCm128HmacSha1_80,
    /// `AES_CM_128_HMAC_SHA1_32`: 32-bit tag on RTP.
    AesCm128HmacSha1_32,
}

impl SrtpCipherSuite {
    /// The SDP name.
    pub open spec fn name(self) -> Seq<char> {
        match self {
            SrtpCipherSuite::AesCm128HmacSha1_80 => "AES_CM_128_HMAC_SHA1_80"@,
            SrtpCipherSuite::AesCm128HmacSha1_32 => "AES_CM_128_HMAC_SHA1_32"@,
        }
    }

    /// The suite with a given SDP name.
    pub open spec fn named(s: Seq<char>) -> Option<SrtpCipherSuite> {
        if s == "AES_CM_128_HMAC_SHA1_80"@ {
            Some(SrtpCipherSuite::AesCm128HmacSha1_80)
        } else if s == "AES_CM_128_HMAC_SHA1_32"@ {
            Some(SrtpCipherSuite::AesCm128HmacSha1_32)
        } else {
            None
        }
    }

    /// Bytes of tag on an RTP packet.
    pub open spec fn tag_len(self) -> nat {
        match self {
            SrtpCipherSuite::AesCm128HmacSha1_80 => 10,
            SrtpCipherSuite::AesCm128HmacSha1_32 => 4,
        }
    }

    /// Look a suite up by its SDP name.
    pub fn from_str(s: &str) -> (r: Option<SrtpCipherSuite>)
        ensures
            r == SrtpCipherSuite::named(s@),
    {
        if crate::text::same_text(s, "AES_CM_128_HMAC_SHA1_80") {
            Some(SrtpCipherSuite::AesCm128HmacSha1_80)
        } else if crate::text::same_text(s, "AES_CM_128_HMAC_SHA1_32") {
            Some(SrtpCipherSuite::AesCm128HmacSha1_32)
        } else {
            None
        }
    }

    /// The SDP name.
    pub fn as_str(&self) -> (s: &'static str)
        ensures
            s@ == self.name(),
    {
        match self {
            SrtpCipherSuite::AesCm128HmacSha1_80 => "AES_CM_128_HMAC_SHA1_80",
            SrtpCipherSuite::AesCm128HmacSha1_32 => "AES_CM_128_HMAC_SHA1_32",
        }
    }

    /// Bytes of tag on an RTP packet.
    pub fn rtp_auth_tag_len(&self) -> (n: usize)
        ensures
            n == self.tag_len(),
    {
        match self {
            SrtpCipherSuite::AesCm128HmacSha1_80 => 10,
            SrtpCipherSuite::AesCm128HmacSha1_32 => 4,
        }
    }

    /// Bytes of tag on an RTCP packet: always 80 bits.
    pub fn rtcp_auth_tag_len(&self) -> (n: usize)
        ensures
            n == 10,
    {
        10
    }
}

// ---------------------------------------------------------------------------
// Counter mode
// ---------------------------------------------------------------------------

/// The input block number `n` under a 14-byte vector: the vector, then the
/// 16-bit block counter.
pub open spec fn counter_block(iv: Seq<u8>, n: int) -> Seq<u8> {
    iv + wire::be16((n % 0x1_0000) as u16)
}

/// Byte `i` of the keystream.
pub open spec fn keystream(key: Seq<u8>, iv: Seq<u8>, i: int) -> u8 {
    crypto::aes128_block(key, counter_block(iv, i / 16))@[i % 16]
}

/// The vector of a packet: source and index, mixed with the session salt.
pub open spec fn packet_iv(salt: Seq<u8>, ssrc: u32, index: u64) -> Seq<u8> {
    let field = seq![0u8, 0u8, 0u8, 0u8] + wire::be32(ssrc) + wire::be48(index);
    Seq::new(14, |i: int| field[i] ^ salt[i])
}

/// `data` under the keystream of a packet. Data longer than the address space
/// can pad to a block stays as it is.
pub open spec fn aes_cm(
    key: Seq<u8>,
    salt: Seq<u8>,
    ssrc: u32,
    index: u64,
    data: Seq<u8>,
) -> Seq<u8> {
    if data.len() + 15 > usize::MAX {
        data
    } else {
        Seq::new(data.len(), |i: int| data[i] ^ keystream(key, packet_iv(salt, ssrc, index), i))
    }
}

/// The vector of a key derivation: the label and the derivation index, mixed
/// with the low half of the master salt.
pub open spec fn prf_iv(salt: Seq<u8>, label: u8, r: u64) -> Seq<u8> {
    let key_id = seq![label] + wire::be48(r);
    Seq::new(14, |i: int| if i < 7 { salt[i] } else { salt[i] ^ key_id[i - 7] })
}

/// `n` derived bytes.
pub open spec fn prf(key: Seq<u8>, salt: Seq<u8>, label: u8, r: u64, n: nat) -> Seq<u8> {
    Seq::new(n, |i: int| keystream(key, prf_iv(salt, label, r), i))
}

/// Applying a keystream twice gives the data back.
pub proof fn law_aes_cm_involution(
    key: Seq<u8>,
    salt: Seq<u8>,
    ssrc: u32,
    index: u64,
    data: Seq<u8>,
)
    ensures
        aes_cm(key, salt, ssrc, index, aes_cm(key, salt, ssrc, index, data)) == data,
        aes_cm(key, salt, ssrc, index, data).len() == data.len(),
{
    let once = aes_cm(key, salt, ssrc, index, data);
    let twice = aes_cm(key, salt, ssrc, index, once);
    assert forall|i: int| 0 <= i < data.len() implies twice[i] == data[i] by {
        let d = data[i];
        let k = keystream(key, packet_iv(salt, ssrc, index), i);
        assert((d ^ k) ^ k == d) by (bit_vector);
    }
    assert(twice =~= data);
}

/// The keystream block number `n` under a 14-byte vector.
fn keystream_block(key: &[u8; 16], iv: &[u8; 14], n: usize) -> (out: [u8; 16])
    ensures
        out == crypto::aes128_block(key@, counter_block(iv@, n as int)),
{
    let counter: u16 = (n % 0x1_0000) as u16;
    let c = bytes_u16(counter);
    let block: [u8; 16] = [
        iv[0], iv[1], iv[2], iv[3], iv[4], iv[5], iv[6], iv[7], iv[8], iv[9], iv[10], iv[11],
        iv[12], iv[13], c[0], c[1],
    ];
    assert(block@ =~= counter_block(iv@, n as int));
    aes128_encrypt(key, block)
}

/// Derive `len` bytes from the master key.
pub fn prf_derive(
    master_key: &[u8; 16],
    master_salt: &[u8; 14],
    label: u8,
    r: u64,
    len: usize,
) -> (out: Vec<u8>)
    ensures
        out@ == prf(master_key@, master_salt@, label, r, len as nat),
{
    let rb = bytes_u48(r);
    let key_id: [u8; 7] = [label, rb[0], rb[1], rb[2], rb[3], rb[4], rb[5]];
    let mut iv: [u8; 14] = *master_salt;
    let mut k: usize = 7;
    assert(key_id@ =~= seq![label] + wire::be48(r));
    while k < 14
        invariant
            7 <= k <= 14,
            key_id@ == seq![label] + wire::be48(r),
            forall|j: int| 0 <= j < 14 ==> iv@[j] == if j < 7 || j >= k {
                master_salt@[j]
            } else {
                master_salt@[j] ^ key_id@[j - 7]
            },
        decreases 14 - k,
    {
        iv[k] = iv[k] ^ key_id[k - 7];
        k += 1;
    }
    assert(iv@ =~= prf_iv(master_salt@, label, r));
    let mut out: Vec<u8> = Vec::new();
    let mut i: usize = 0;
    while i < len
        invariant
            i <= len,
            i == len || i % 16 == 0,
            iv@ == prf_iv(master_salt@, label, r),
            out@ == prf(master_key@, master_salt@, label, r, i as nat),
        decreases len - i,
    {
        let block = keystream_block(master_key, &iv, i / 16);
        let n: usize = if len - i < 16 {
            len - i
        } else {
            16
        };
        let ghost start = i;
        let mut j: usize = 0;
        while j < n
            invariant
                j <= n <= 16,
                start % 16 == 0,
                start + n <= len,
                i == start + j,
                iv@ == prf_iv(master_salt@, label, r),
                block == crypto::aes128_block(master_key@, counter_block(iv@, start as int / 16)),
                out@ == prf(master_key@, master_salt@, label, r, i as nat),
            decreases n - j,
        {
            out.push(block[j]);
            assert((start + j) / 16 == start as int / 16 && (start + j) % 16 == j);
            i += 1;
            j += 1;
            assert(out@ =~= prf(master_key@, master_salt@, label, r, i as nat));
        }
    }
    out
}

/// Encrypt or decrypt `data` in place with the keystream of a packet.
pub fn aes_cm_encrypt(
    session_key: &[u8; 16],
    session_salt: &[u8; 14],
    ssrc: u32,
    index: u64,
    data: &mut [u8],
)
    ensures
        final(data)@ == aes_cm(session_key@, session_salt@, ssrc, index, old(data)@),
{
    let len: usize = data.len();
    if len > usize::MAX - 15 {
        return ;
    }
    let s = bytes_u32(ssrc);
    let x = bytes_u48(index);
    let field: [u8; 14] = [
        0, 0, 0, 0, s[0], s[1], s[2], s[3], x[0], x[1], x[2], x[3], x[4], x[5],
    ];
    assert(field@ =~= seq![0u8, 0u8, 0u8, 0u8] + wire::be32(ssrc) + wire::be48(index));
    let mut iv: [u8; 14] = field;
    let mut k: usize = 0;
    while k < 14
        invariant
            k <= 14,
            forall|j: int| 0 <= j < 14 ==> iv@[j] == if j >= k {
                field@[j]
            } else {
                field@[j] ^ session_salt@[j]
            },
        decreases 14 - k,
    {
        iv[k] = iv[k] ^ session_salt[k];
        k += 1;
    }
    assert(iv@ =~= packet_iv(session_salt@, ssrc, index));
    let mut i: usize = 0;
    while i < len
        invariant
            i <= len,
            len == data@.len(),
            len == old(data)@.len(),
            i == len || i % 16 == 0,
            iv@ == packet_iv(session_salt@, ssrc, index),
            forall|j: int| 0 <= j < len ==> data@[j] == if j < i {
                old(data)@[j] ^ keystream(session_key@, iv@, j)
            } else {
                old(data)@[j]
            },
        decreases len - i,
    {
        let block = keystream_block(session_key, &iv, i / 16);
        let n: usize = if len - i < 16 {
            len - i
        } else {
            16
        };
        let ghost start = i;
        let mut j: usize = 0;
        while j < n
            invariant
                j <= n <= 16,
                start % 16 == 0,
                start + n <= len,
                i == start + j,
                len == data@.len(),
                len == old(data)@.len(),
                iv@ == packet_iv(session_salt@, ssrc, index),
                block == crypto::aes128_block(session_key@, counter_block(iv@, start as int / 16)),
                forall|m: int| 0 <= m < len ==> data@[m] == if m < i {
                    old(data)@[m] ^ keystream(session_key@, iv@, m)
                } else {
                    old(data)@[m]
                },
            decreases n - j,
        {
            assert((start + j) / 16 == start as int / 16 && (start + j) % 16 == j);
            data[i] = data[i] ^ block[j];
            i += 1;
            j += 1;
        }
    }
    assert(data@ =~= aes_cm(session_key@, session_salt@, ssrc, index, old(data)@));
}

/// Encrypt or decrypt an SRTCP packet, whose index has 31 bits.
pub fn aes_cm_encrypt_srtcp(
    session_key: &[u8; 16],
    session_salt: &[u8; 14],
    ssrc: u32,
    srtcp_index: u32,
    data: &mut [u8],
)
    requires
        srtcp_index <= 0x7FFF_FFFF,
    ensures
        final(data)@ == aes_cm(
            session_key@,
            session_salt@,
            ssrc,
            srtcp_index as u64,
            old(data)@,
        ),
{
    aes_cm_encrypt(session_key, session_salt, ssrc, srtcp_index as u64, data);
}

// ---------------------------------------------------------------------------
// Session keys
// ---------------------------------------------------------------------------

/// Derived session keys.
#[derive(Clone)]
pub struct SessionKeys {
    /// Encryption key.
    pub enc_key: [u8; 16],
    /// Authentication key.
    pub auth_key: [u8; 20],
    /// Session salt.
    pub salt: [u8; 14],
}

impl SessionKeys {
    /// The keys are those derived from a master key and salt, for RTP (labels 0
    /// to 2) or RTCP (labels 3 to 5), at derivation index `r`.
    pub open spec fn derived_from(self, key: Seq<u8>, salt: Seq<u8>, rtcp: bool, r: u64) -> bool {
        let base: u8 = if rtcp {
            3
        } else {
            0
        };
        &&& self.enc_key@ == prf(key, salt, base, r, 16)
        &&& self.auth_key@ == prf(key, salt, (base + 1) as u8, r, 20)
        &&& self.salt@ == prf(key, salt, (base + 2) as u8, r, 14)
    }

    /// The keys hold nothing but zeros.
    pub open spec fn is_wiped(self) -> bool {
        &&& forall|i: int| 0 <= i < 16 ==> self.enc_key@[i] == 0
        &&& forall|i: int| 0 <= i < 20 ==> self.auth_key@[i] == 0
        &&& forall|i: int| 0 <= i < 14 ==> self.salt@[i] == 0
    }
}

/// Derive the session keys for packets around `index`.
pub fn derive_session_keys(
    master_key: &[u8; 16],
    master_salt: &[u8; 14],
    is_rtcp: bool,
    key_derivation_rate: u64,
    index: u64,
) -> (keys: SessionKeys)
    ensures
        keys.derived_from(
            master_key@,
            master_salt@,
            is_rtcp,
            if key_derivation_rate > 0 {
                index / key_derivation_rate
            } else {
                0
            },
        ),
{
    let base: u8 = if is_rtcp {
        3
    } else {
        0
    };
    let r: u64 = if key_derivation_rate > 0 {
        index / key_derivation_rate
    } else {
        0
    };
    let e = prf_derive(master_key, master_salt, base, r, 16);
    let a = prf_derive(master_key, master_salt, base + 1, r, 20);
    let s = prf_derive(master_key, master_salt, base + 2, r, 14);
    let keys = SessionKeys {
        enc_key: [
            e[0], e[1], e[2], e[3], e[4], e[5], e[6], e[7], e[8], e[9], e[10], e[11], e[12], e[13],
            e[14], e[15],
        ],
        auth_key: [
            a[0], a[1], a[2], a[3], a[4], a[5], a[6], a[7], a[8], a[9], a[10], a[11], a[12], a[13],
            a[14], a[15], a[16], a[17], a[18], a[19],
        ],
        salt: [
            s[0], s[1], s[2], s[3], s[4], s[5], s[6], s[7], s[8], s[9], s[10], s[11], s[12], s[13],
        ],
    };
    assert(keys.enc_key@ =~= e@);
    assert(keys.auth_key@ =~= a@);
    assert(keys.salt@ =~= s@);
    keys
}

// ---------------------------------------------------------------------------
// Headers and tags
// ---------------------------------------------------------------------------

/// The length of an RTP header with its contributing sources and extension, or
/// what is wrong with it.
pub open spec fn rtp_header(p: Seq<u8>) -> Result<nat, Seq<char>> {
    let fixed = 12 + 4 * (p[0] as nat % 16);
    let extended = p[0] as nat / 16 % 2 == 1;
    if p.len() < 12 {
        Err("Packet too short for RTP header"@)
    } else if extended && p.len() < fixed + 4 {
        Err("Packet too short for extension header"@)
    } else {
        let len = if extended {
            fixed + 4 + 4 * (wire::u16_at(p, fixed as int + 2) as nat)
        } else {
            fixed
        };
        if len > p.len() {
            Err("Header length exceeds packet"@)
        } else {
            Ok(len)
        }
    }
}

/// Length of an RTP header with its contributing sources and extension.
pub fn rtp_header_len(packet: &[u8]) -> (r: Result<usize, RtpSipError>)
    ensures
        match r {
            Ok(n) => rtp_header(packet@) == Ok::<nat, Seq<char>>(n as nat),
            Err(e) => rtp_header(packet@) is Err && e.is_rtp(rtp_header(packet@)->Err_0),
        },
{
    if packet.len() < 12 {
        return Err(rtp_error("Packet too short for RTP header"));
    }
    let cc: usize = (packet[0] % 16) as usize;
    let has_extension: bool = packet[0] / 16 % 2 == 1;
    let mut len: usize = 12 + cc * 4;
    if has_extension {
        if packet.len() < len + 4 {
            return Err(rtp_error("Packet too short for extension header"));
        }
        let ext_len: usize = read_u16(packet, len + 2) as usize;
        len += 4 + ext_len * 4;
    }
    if len > packet.len() {
        return Err(rtp_error("Header length exceeds packet"));
    }
    Ok(len)
}

/// Compare without leaving early at the first difference.
pub fn constant_time_eq(a: &[u8], b: &[u8]) -> (r: bool)
    ensures
        r == (a@ == b@),
{
    if a.len() != b.len() {
        return false;
    }
    let mut diff: u8 = 0;
    let mut i: usize = 0;
    while i < a.len()
        invariant
            a@.len() == b@.len(),
            i <= a@.len(),
            diff == 0 <==> (forall|j: int| 0 <= j < i ==> a@[j] == b@[j]),
        decreases a@.len() - i,
    {
        let x: u8 = a[i];
        let y: u8 = b[i];
        assert((diff | (x ^ y)) == 0 <==> (diff == 0 && x == y)) by (bit_vector);
        diff = diff | (x ^ y);
        i += 1;
    }
    assert(diff == 0 ==> a@ =~= b@);
    diff == 0
}

/// The tag of an RTP packet: over header, encrypted payload and rollover
/// counter, cut to `n` bytes.
pub open spec fn rtp_tag(auth_key: Seq<u8>, data: Seq<u8>, roc: u32, n: nat) -> Seq<u8> {
    crypto::hmac_sha1_tag(auth_key, data + wire::be32(roc))@.subrange(0, n as int)
}

/// Compute the tag of an RTP packet.
fn compute_rtp_auth_tag(auth_key: &[u8; 20], data: &[u8], roc: u32, tag_len: usize) -> (tag: Vec<
    u8,
>)
    requires
        tag_len <= 20,
    ensures
        tag@ == rtp_tag(auth_key@, data@, roc, tag_len as nat),
{
    let mut covered = slice_to_vec(data);
    push_u32(&mut covered, roc);
    let full = hmac_sha1(auth_key, covered.as_slice());
    copy_range(&full, 0, tag_len)
}

// ---------------------------------------------------------------------------
// Replay windows
// ---------------------------------------------------------------------------

/// Bit `d` of a 128-bit window.
pub open spec fn bit128(window: u128, d: int) -> bool {
    (window & (1u128 << (d as u128))) != 0
}

/// Bit `d` of a 64-bit window.
pub open spec fn bit64(window: u64, d: int) -> bool {
    (window & (1u64 << (d as u64))) != 0
}

/// An index was received: it lies in the 128 positions up to `base`, and its
/// bit is set.
pub open spec fn rtp_seen(window: u128, base: u64, index: u64) -> bool {
    index <= base && base - index < 128 && bit128(window, base - index)
}

/// An index may be received: above the window, or in it and not seen.
pub open spec fn rtp_fresh(window: u128, base: u64, index: u64) -> bool {
    index > base || (base - index < 128 && !bit128(window, base - index))
}

/// The window after an index was received.
pub open spec fn rtp_window_with(window: u128, base: u64, index: u64) -> u128 {
    if index > base {
        if index - base >= 128 {
            1
        } else {
            (window << ((index - base) as u128)) | 1
        }
    } else if base - index < 128 {
        window | (1u128 << ((base - index) as u128))
    } else {
        window
    }
}

/// As `rtp_seen`, for the 64 positions of the SRTCP window.
pub open spec fn rtcp_seen(window: u64, base: u64, index: u64) -> bool {
    index <= base && base - index < 64 && bit64(window, base - index)
}

/// As `rtp_fresh`, for the SRTCP window.
pub open spec fn rtcp_fresh(window: u64, base: u64, index: u64) -> bool {
    index > base || (base - index < 64 && !bit64(window, base - index))
}

/// As `rtp_window_with`, for the SRTCP window.
pub open spec fn rtcp_window_with(window: u64, base: u64, index: u64) -> u64 {
    if index > base {
        if index - base >= 64 {
            1
        } else {
            (window << ((index - base) as u64)) | 1
        }
    } else if base - index < 64 {
        window | (1u64 << ((base - index) as u64))
    } else {
        window
    }
}

/// The higher of two indices.
pub open spec fn higher(a: u64, b: u64) -> u64 {
    if a > b {
        a
    } else {
        b
    }
}

/// After an index was received, exactly the indices that the window still
/// reaches and that were seen before, and the index itself, are seen.
pub proof fn law_rtp_window(window: u128, base: u64, index: u64, other: u64)
    ensures
        rtp_seen(rtp_window_with(window, base, index), higher(base, index), other) <==> (
        higher(base, index) - 128 < other <= higher(base, index) && (other == index || rtp_seen(
            window,
            base,
            other,
        ))),
{
    if index > base {
        if index - base >= 128 {
            if other <= index && index - other < 128 {
                let d: u128 = (index - other) as u128;
                assert(d < 128 ==> (((1u128 & (1u128 << d)) != 0) <==> d == 0)) by (bit_vector);
            }
        } else if other <= index && index - other < 128 {
            let s: u128 = (index - base) as u128;
            let d: u128 = (index - other) as u128;
            let e: u128 = if d >= s {
                (d - s) as u128
            } else {
                0
            };
            assert(0 < s < 128 && d < 128 && (d >= s ==> e == d - s) ==> ((((window << s) | 1) & (1u128
                << d)) != 0 <==> (d == 0 || (d >= s && (window & (1u128 << e)) != 0))))
                by (bit_vector);
        }
    } else if base - index < 128 && other <= base && base - other < 128 {
        let d: u128 = (base - index) as u128;
        let e: u128 = (base - other) as u128;
        assert(d < 128 && e < 128 ==> (((window | (1u128 << d)) & (1u128 << e)) != 0 <==> (d == e
            || (window & (1u128 << e)) != 0))) by (bit_vector);
    }
}

/// As `law_rtp_window`, for the SRTCP window.
pub proof fn law_rtcp_window(window: u64, base: u64, index: u64, other: u64)
    ensures
        rtcp_seen(rtcp_window_with(window, base, index), higher(base, index), other) <==> (
        higher(base, index) - 64 < other <= higher(base, index) && (other == index || rtcp_seen(
            window,
            base,
            other,
        ))),
{
    if index > base {
        if index - base >= 64 {
            if other <= index && index - other < 64 {
                let d: u64 = (index - other) as u64;
                assert(d < 64 ==> (((1u64 & (1u64 << d)) != 0) <==> d == 0)) by (bit_vector);
            }
        } else if other <= index && index - other < 64 {
            let s: u64 = (index - base) as u64;
            let d: u64 = (index - other) as u64;
            let e: u64 = if d >= s {
                (d - s) as u64
            } else {
                0
            };
            assert(0 < s < 64 && d < 64 && (d >= s ==> e == d - s) ==> ((((window << s) | 1) & (1u64
                << d)) != 0 <==> (d == 0 || (d >= s && (window & (1u64 << e)) != 0))))
                by (bit_vector);
        }
    } else if base - index < 64 && other <= base && base - other < 64 {
        let d: u64 = (base - index) as u64;
        let e: u64 = (base - other) as u64;
        assert(d < 64 && e < 64 ==> (((window | (1u64 << d)) & (1u64 << e)) != 0 <==> (d == e
            || (window & (1u64 << e)) != 0))) by (bit_vector);
    }
}

// ---------------------------------------------------------------------------
// Context
// ---------------------------------------------------------------------------

/// State of one direction of a protected stream.
pub struct SrtpContext {
    /// Cipher suite.
    pub suite: SrtpCipherSuite,
    /// Master key.
    pub master_key: [u8; 16],
    /// Master salt.
    pub master_salt: [u8; 14],
    /// Session keys for RTP.
    pub rtp_keys: SessionKeys,
    /// Session keys for RTCP.
    pub rtcp_keys: SessionKeys,
    /// Key derivation rate; zero derives the keys once.
    pub key_derivation_rate: u64,
    /// Rollover counter of the receiver.
    pub roc: u32,
    /// Sequence number of the highest index received.
    pub s_l: u16,
    /// Whether a packet was received.
    pub initialized: bool,
    /// Index of the last packet offered for sending.
    pub send_counter: u64,
    /// Whether a packet was offered for sending.
    pub send_initialized: bool,
    /// Index of the last packet sent.
    pub last_sent_index: u64,
    /// Packets encrypted under this key.
    pub packets_encrypted: u64,
    /// Next SRTCP index to send.
    pub srtcp_index: u32,
    /// Received indices, as bits behind `replay_window_base`.
    pub replay_window: u128,
    /// Highest index received.
    pub replay_window_base: u64,
    /// Received SRTCP indices, as bits behind `srtcp_replay_window_base`.
    pub srtcp_replay_window: u64,
    /// Highest SRTCP index received.
    pub srtcp_replay_window_base: u64,
    /// Whether an SRTCP packet was received.
    pub srtcp_replay_initialized: bool,
    /// Consecutive failures.
    pub error_count: u32,
    /// Master key identifier to send.
    pub mki: Option<Vec<u8>>,
    /// Length of the master key identifier.
    pub mki_length: Option<usize>,
    /// Source of the last packet received.
    pub current_recv_ssrc: Option<u32>,
}

impl SrtpContext {
    /// The identifier and its declared length agree, the failure count is below
    /// its threshold, and nothing counts as received before the first packet.
    pub open spec fn wf(self) -> bool {
        &&& self.mki matches Some(m) ==> self.mki_length == Some(m@.len() as usize)
        &&& self.error_count < SRTP_RESET_THRESHOLD
        &&& !self.initialized ==> self.replay_window == 0 && self.replay_window_base == 0
        &&& !self.srtcp_replay_initialized ==> self.srtcp_replay_window == 0
            && self.srtcp_replay_window_base == 0
    }

    /// The identifier.
    pub open spec fn mki_view(self) -> Option<Seq<u8>> {
        match self.mki {
            Some(m) => Some(m@),
            None => None,
        }
    }

    /// The identifier bytes on packets sent.
    pub open spec fn mki_bytes(self) -> Seq<u8> {
        match self.mki {
            Some(m) => m@,
            None => Seq::empty(),
        }
    }

    /// The identifier bytes expected on packets received.
    pub open spec fn mki_len(self) -> nat {
        match self.mki_length {
            Some(n) => n as nat,
            None => 0,
        }
    }

    /// A context for the given key material before any packet.
    pub open spec fn is_fresh(
        self,
        suite: SrtpCipherSuite,
        key: Seq<u8>,
        salt: Seq<u8>,
        mki: Option<Seq<u8>>,
        mki_length: Option<usize>,
    ) -> bool {
        &&& self.wf()
        &&& self.suite == suite
        &&& self.master_key@ == key
        &&& self.master_salt@ == salt
        &&& self.rtp_keys.derived_from(key, salt, false, 0)
        &&& self.rtcp_keys.derived_from(key, salt, true, 0)
        &&& self.key_derivation_rate == 0
        &&& self.roc == 0
        &&& self.s_l == 0
        &&& !self.initialized
        &&& self.send_counter == 0
        &&& !self.send_initialized
        &&& self.last_sent_index == 0
        &&& self.packets_encrypted == 0
        &&& self.srtcp_index == 0
        &&& !self.srtcp_replay_initialized
        &&& self.error_count == 0
        &&& self.mki_view() == mki
        &&& self.mki_length == mki_length
        &&& self.current_recv_ssrc is None
    }

    /// A context without a master key identifier.
    pub fn new(suite: SrtpCipherSuite, master_key: [u8; 16], master_salt: [u8; 14]) -> (ctx:
        SrtpContext)
        ensures
            ctx.is_fresh(suite, master_key@, master_salt@, None, None),
    {
        SrtpContext::with_mki(suite, master_key, master_salt, None, None)
    }

    /// A context with an optional master key identifier. The declared length
    /// must be that of the identifier.
    pub fn with_mki(
        suite: SrtpCipherSuite,
        master_key: [u8; 16],
        master_salt: [u8; 14],
        mki: Option<Vec<u8>>,
        mki_length: Option<usize>,
    ) -> (ctx: SrtpContext)
        requires
            mki matches Some(m) ==> mki_length == Some(m@.len() as usize),
        ensures
            ctx.is_fresh(
                suite,
                master_key@,
                master_salt@,
                match mki {
                    Some(m) => Some(m@),
                    None => None,
                },
                mki_length,
            ),
    {
        let rtp_keys = derive_session_keys(&master_key, &master_salt, false, 0, 0);
        let rtcp_keys = derive_session_keys(&master_key, &master_salt, true, 0, 0);
        SrtpContext {
            suite,
            master_key,
            master_salt,
            rtp_keys,
            rtcp_keys,
            key_derivation_rate: 0,
            roc: 0,
            s_l: 0,
            initialized: false,
            send_counter: 0,
            send_initialized: false,
            last_sent_index: 0,
            packets_encrypted: 0,
            srtcp_index: 0,
            replay_window: 0,
            replay_window_base: 0,
            srtcp_replay_window: 0,
            srtcp_replay_window_base: 0,
            srtcp_replay_initialized: false,
            error_count: 0,
            mki,
            mki_length,
            current_recv_ssrc: None,
        }
    }

    /// A context for a parsed crypto attribute.
    pub fn from_crypto(crypto: &CryptoAttribute) -> (ctx: SrtpContext)
        requires
            crypto.mki matches Some(m) ==> crypto.mki_length == Some(m@.len() as usize),
        ensures
            ctx.is_fresh(
                crypto.suite,
                crypto.master_key@,
                crypto.master_salt@,
                crypto@.mki,
                crypto.mki_length,
            ),
    {
        let mki: Option<Vec<u8>> = match &crypto.mki {
            Some(m) => Some(slice_to_vec(m.as_slice())),
            None => None,
        };
        SrtpContext::with_mki(
            crypto.suite,
            crypto.master_key,
            crypto.master_salt,
            mki,
            crypto.mki_length,
        )
    }

    // ----- sending -----

    /// The counter after a packet with sequence number `seq` is offered: the
    /// rollover part goes up when the number falls by more than half its range.
    pub open spec fn next_send_counter(self, seq: u16) -> u64 {
        let prev = self.send_counter % 0x1_0000;
        let roc = self.send_counter / 0x1_0000;
        if !self.send_initialized {
            seq as u64
        } else if seq < prev && prev - seq > 0x8000 {
            (((roc + 1) % 0x1_0000_0000_0000) * 0x1_0000 + seq) as u64
        } else {
            (roc * 0x1_0000 + seq) as u64
        }
    }

    /// The 48-bit index under which a packet with sequence number `seq` is sent.
    pub open spec fn send_index(self, seq: u16) -> u64 {
        self.next_send_counter(seq) % 0x1_0000_0000_0000
    }

    /// An RTP packet sealed under `index`: header, encrypted payload, identifier,
    /// tag.
    pub open spec fn sealed_rtp(self, packet: Seq<u8>, index: u64) -> Seq<u8> {
        let h = rtp_header(packet)->Ok_0 as int;
        let body = packet.subrange(0, h) + aes_cm(
            self.rtp_keys.enc_key@,
            self.rtp_keys.salt@,
            wire::u32_at(packet, 8),
            index,
            packet.subrange(h, packet.len() as int),
        );
        body + self.mki_bytes() + rtp_tag(
            self.rtp_keys.auth_key@,
            body,
            (index / 0x1_0000) as u32,
            self.suite.tag_len(),
        )
    }

    /// State and result of `protect_rtp`.
    pub open spec fn protect_rtp_outcome(self, packet: Seq<u8>) -> (
        SrtpContext,
        Result<Seq<u8>, Seq<char>>,
    ) {
        let seq = wire::u16_at(packet, 2);
        let index = self.send_index(seq);
        let offered = SrtpContext {
            send_counter: self.next_send_counter(seq),
            send_initialized: true,
            ..self
        };
        if packet.len() < 12 {
            (self, Err("RTP packet too short"@))
        } else if self.packets_encrypted >= KEY_LIFETIME_MAX {
            (
                self,
                Err("SRTP key lifetime exhausted: 2^48 packets encrypted, re-key required"@),
            )
        } else if rtp_header(packet) is Err {
            (self, Err(rtp_header(packet)->Err_0))
        } else if self.packets_encrypted > 0 && index <= self.last_sent_index {
            (offered, Err("SRTP non-monotonic send index: keystream reuse prevented"@))
        } else {
            (
                SrtpContext {
                    last_sent_index: index,
                    packets_encrypted: (self.packets_encrypted + 1) as u64,
                    ..offered
                },
                Ok(self.sealed_rtp(packet, index)),
            )
        }
    }

    /// Encrypt and authenticate an RTP packet.
    pub fn protect_rtp(&mut self, packet: &[u8]) -> (r: Result<Vec<u8>, RtpSipError>)
        ensures
            *final(self) == old(self).protect_rtp_outcome(packet@).0,
            outcome_matches(r, old(self).protect_rtp_outcome(packet@).1),
            old(self).wf() ==> final(self).wf(),
    {
        if packet.len() < 12 {
            return Err(rtp_error("RTP packet too short"));
        }
        if self.packets_encrypted >= KEY_LIFETIME_MAX {
            return Err(
                rtp_error("SRTP key lifetime exhausted: 2^48 packets encrypted, re-key required"),
            );
        }
        let header_len: usize = match rtp_header_len(packet) {
            Ok(n) => n,
            Err(e) => {
                return Err(e);
            },
        };
        let seq: u16 = read_u16(packet, 2);
        let ssrc: u32 = read_u32(packet, 8);
        if !self.send_initialized {
            self.send_counter = seq as u64;
            self.send_initialized = true;
        } else {
            let prev_seq: u16 = (self.send_counter % 0x1_0000) as u16;
            let roc: u64 = self.send_counter / 0x1_0000;
            if seq < prev_seq && prev_seq - seq > 0x8000 {
                self.send_counter = (roc + 1) % 0x1_0000_0000_0000 * 0x1_0000 + seq as u64;
            } else {
                self.send_counter = roc * 0x1_0000 + seq as u64;
            }
        }
        let index: u64 = self.send_counter % 0x1_0000_0000_0000;
        assert(index == old(self).send_index(seq));
        if self.packets_encrypted > 0 && index <= self.last_sent_index {
            return Err(rtp_error("SRTP non-monotonic send index: keystream reuse prevented"));
        }
        self.last_sent_index = index;
        self.packets_encrypted = self.packets_encrypted + 1;
        let roc: u32 = (index / 0x1_0000) as u32;

        let mut output = copy_range(packet, 0, header_len);
        let mut payload = copy_range(packet, header_len, packet.len());
        aes_cm_encrypt(
            &self.rtp_keys.enc_key,
            &self.rtp_keys.salt,
            ssrc,
            index,
            payload.as_mut_slice(),
        );
        push_bytes(&mut output, payload.as_slice());
        let tag = compute_rtp_auth_tag(
            &self.rtp_keys.auth_key,
            output.as_slice(),
            roc,
            self.suite.rtp_auth_tag_len(),
        );
        let ghost body = output@;
        match &self.mki {
            Some(m) => {
                push_bytes(&mut output, m.as_slice());
            },
            None => {
                assert(output@ =~= body + Seq::<u8>::empty());
            },
        }
        push_bytes(&mut output, tag.as_slice());
        assert(output@ =~= old(self).sealed_rtp(packet@, index));
        Ok(output)
    }

    // ----- receiving -----

    /// The failure count after one more failure: it starts over at the threshold.
    pub open spec fn bumped(self) -> SrtpContext {
        SrtpContext {
            error_count: if self.error_count + 1 >= SRTP_RESET_THRESHOLD {
                0
            } else {
                (self.error_count + 1) as u32
            },
            ..self
        }
    }

    /// The receiver after the header of a packet from `ssrc`: another source
    /// than before starts from nothing.
    pub open spec fn hearing(self, ssrc: u32) -> SrtpContext {
        let reset = match self.current_recv_ssrc {
            Some(prev) => prev != ssrc,
            None => false,
        };
        if reset {
            SrtpContext {
                replay_window: 0,
                replay_window_base: 0,
                s_l: 0,
                roc: 0,
                initialized: false,
                current_recv_ssrc: Some(ssrc),
                ..self
            }
        } else {
            SrtpContext { current_recv_ssrc: Some(ssrc), ..self }
        }
    }

    /// The rollover counter that a packet with sequence number `seq` is taken
    /// to have: the one that puts it within half the range of the last.
    pub open spec fn roc_for(self, seq: u16) -> u32 {
        if !self.initialized {
            0
        } else if seq > self.s_l && seq - self.s_l > 0x8000 {
            ((self.roc + 0xFFFF_FFFF) % 0x1_0000_0000) as u32
        } else if seq < self.s_l && self.s_l - seq > 0x8000 {
            ((self.roc + 1) % 0x1_0000_0000) as u32
        } else {
            self.roc
        }
    }

    /// The highest index received.
    pub open spec fn highest_index(self) -> int {
        self.roc * 0x1_0000 + self.s_l
    }

    /// The index of a packet with sequence number `seq`.
    pub open spec fn recv_index(self, seq: u16) -> u64 {
        (self.roc_for(seq) * 0x1_0000 + seq) as u64
    }

    /// The receiver after an authenticated packet.
    pub open spec fn accepting(self, seq: u16) -> SrtpContext {
        let v = self.roc_for(seq);
        let index = self.recv_index(seq);
        let ahead = !self.initialized || index > self.roc * 0x1_0000 + self.s_l;
        SrtpContext {
            roc: if ahead {
                v
            } else {
                self.roc
            },
            s_l: if ahead {
                seq
            } else {
                self.s_l
            },
            initialized: true,
            replay_window: rtp_window_with(self.replay_window, self.replay_window_base, index),
            replay_window_base: higher(self.replay_window_base, index),
            ..self
        }
    }

    /// A packet's authenticated part, with identifier and tag cut off.
    pub open spec fn rtp_body(self, packet: Seq<u8>) -> Seq<u8> {
        packet.subrange(0, packet.len() - self.suite.tag_len() - self.mki_len())
    }

    /// State and result of `unprotect_rtp`.
    pub open spec fn unprotect_rtp_outcome(self, packet: Seq<u8>) -> (
        SrtpContext,
        Result<Seq<u8>, Seq<char>>,
    ) {
        let n = self.suite.tag_len();
        let seq = wire::u16_at(packet, 2);
        let ssrc = wire::u32_at(packet, 8);
        let heard = self.hearing(ssrc);
        let index = heard.recv_index(seq);
        let body = self.rtp_body(packet);
        let tag = packet.subrange(packet.len() - n, packet.len() as int);
        let done = heard.accepting(seq);
        if packet.len() < 12 + n + self.mki_len() {
            (self.bumped(), Err("SRTP packet rejected"@))
        } else if heard.initialized && !rtp_fresh(
            heard.replay_window,
            heard.replay_window_base,
            index,
        ) {
            (heard, Err("SRTP packet rejected"@))
        } else if rtp_tag(self.rtp_keys.auth_key@, body, heard.roc_for(seq), n) != tag {
            (heard.bumped(), Err("SRTP packet rejected"@))
        } else {
            match rtp_header(body) {
                Err(text) => (done, Err(text)),
                Ok(h) => (
                    SrtpContext { error_count: 0, ..done },
                    Ok(
                        body.subrange(0, h as int) + aes_cm(
                            self.rtp_keys.enc_key@,
                            self.rtp_keys.salt@,
                            ssrc,
                            index,
                            body.subrange(h as int, body.len() as int),
                        ),
                    ),
                ),
            }
        }
    }

    /// Authenticate and decrypt an SRTP packet. Only an authenticated packet
    /// moves the rollover counter and the replay window; another source than
    /// before makes them start over. A packet that is too short or not authentic
    /// counts as a failure, a replay does not.
    pub fn unprotect_rtp(&mut self, packet: &[u8]) -> (r: Result<Vec<u8>, RtpSipError>)
        requires
            old(self).wf(),
            old(self).mki_len() + 22 <= usize::MAX,
        ensures
            *final(self) == old(self).unprotect_rtp_outcome(packet@).0,
            outcome_matches(r, old(self).unprotect_rtp_outcome(packet@).1),
            final(self).wf(),
    {
        let auth_tag_len: usize = self.suite.rtp_auth_tag_len();
        let mki_len: usize = match self.mki_length {
            Some(n) => n,
            None => 0,
        };
        if packet.len() < 12 + auth_tag_len + mki_len {
            self.handle_unprotect_error();
            return Err(rtp_error("SRTP packet rejected"));
        }
        let seq: u16 = read_u16(packet, 2);
        let ssrc: u32 = read_u32(packet, 8);
        let reset: bool = match self.current_recv_ssrc {
            Some(prev) => prev != ssrc,
            None => false,
        };
        if reset {
            self.replay_window = 0;
            self.replay_window_base = 0;
            self.s_l = 0;
            self.roc = 0;
            self.initialized = false;
        }
        self.current_recv_ssrc = Some(ssrc);
        let ghost heard = *self;
        assert(heard == old(self).hearing(ssrc));

        let estimated_roc: u32 = self.estimate_roc(seq);
        let index: u64 = estimated_roc as u64 * 0x1_0000 + seq as u64;
        if self.initialized && !self.check_replay(index) {
            return Err(rtp_error("SRTP packet rejected"));
        }
        let body_len: usize = packet.len() - auth_tag_len - mki_len;
        let body = slice_subrange(packet, 0, body_len);
        let received_tag = slice_subrange(packet, packet.len() - auth_tag_len, packet.len());
        let computed_tag = compute_rtp_auth_tag(
            &self.rtp_keys.auth_key,
            body,
            estimated_roc,
            auth_tag_len,
        );
        if !constant_time_eq(computed_tag.as_slice(), received_tag) {
            self.handle_unprotect_error();
            return Err(rtp_error("SRTP packet rejected"));
        }
        self.update_roc_recv(seq, estimated_roc);
        self.accept_replay(index);
        assert(*self == heard.accepting(seq));

        let header_len: usize = match rtp_header_len(body) {
            Ok(n) => n,
            Err(e) => {
                return Err(e);
            },
        };
        let mut output = copy_range(body, 0, header_len);
        let mut payload = copy_range(body, header_len, body.len());
        aes_cm_encrypt(
            &self.rtp_keys.enc_key,
            &self.rtp_keys.salt,
            ssrc,
            index,
            payload.as_mut_slice(),
        );
        push_bytes(&mut output, payload.as_slice());
        self.error_count = 0;
        Ok(output)
    }

    /// Count a failure. The replay state stays as it is.
    pub fn handle_unprotect_error(&mut self)
        requires
            old(self).error_count < SRTP_RESET_THRESHOLD,
        ensures
            *final(self) == old(self).bumped(),
    {
        self.error_count = self.error_count + 1;
        if self.error_count >= SRTP_RESET_THRESHOLD {
            self.error_count = 0;
        }
    }

    /// Consecutive failures.
    pub fn error_count(&self) -> (n: u32)
        ensures
            n == self.error_count,
    {
        self.error_count
    }

    /// The rollover counter of an incoming packet.
    pub fn estimate_roc(&self, seq: u16) -> (v: u32)
        ensures
            v == self.roc_for(seq),
    {
        if !self.initialized {
            return 0;
        }
        if seq > self.s_l {
            if seq - self.s_l > 0x8000 {
                self.roc.wrapping_sub(1)
            } else {
                self.roc
            }
        } else if seq < self.s_l {
            if self.s_l - seq > 0x8000 {
                self.roc.wrapping_add(1)
            } else {
                self.roc
            }
        } else {
            self.roc
        }
    }

    /// Move to an authenticated packet's rollover counter and sequence number,
    /// where its index is the highest so far.
    pub fn update_roc_recv(&mut self, seq: u16, estimated_roc: u32)
        ensures
            *final(self) == (SrtpContext {
                roc: if !old(self).initialized || estimated_roc * 0x1_0000 + seq > old(self).roc
                    * 0x1_0000 + old(self).s_l {
                    estimated_roc
                } else {
                    old(self).roc
                },
                s_l: if !old(self).initialized || estimated_roc * 0x1_0000 + seq > old(self).roc
                    * 0x1_0000 + old(self).s_l {
                    seq
                } else {
                    old(self).s_l
                },
                initialized: true,
                ..*old(self)
            }),
    {
        if !self.initialized {
            self.s_l = seq;
            self.roc = estimated_roc;
            self.initialized = true;
            return ;
        }
        let index: u64 = estimated_roc as u64 * 0x1_0000 + seq as u64;
        let current_index: u64 = self.roc as u64 * 0x1_0000 + self.s_l as u64;
        if index > current_index {
            self.roc = estimated_roc;
            self.s_l = seq;
        }
    }

    /// Whether an index is above the replay window, or in it and not seen.
    pub fn check_replay(&self, index: u64) -> (r: bool)
        ensures
            r == rtp_fresh(self.replay_window, self.replay_window_base, index),
    {
        if index > self.replay_window_base {
            return true;
        }
        let delta: u64 = self.replay_window_base - index;
        if delta >= 128 {
            return false;
        }
        (self.replay_window & (1u128 << (delta as u128))) == 0
    }

    /// Mark an index as received.
    pub fn accept_replay(&mut self, index: u64)
        ensures
            *final(self) == (SrtpContext {
                replay_window: rtp_window_with(
                    old(self).replay_window,
                    old(self).replay_window_base,
                    index,
                ),
                replay_window_base: higher(old(self).replay_window_base, index),
                ..*old(self)
            }),
    {
        if index > self.replay_window_base {
            let shift: u64 = index - self.replay_window_base;
            if shift >= 128 {
                self.replay_window = 1;
            } else {
                self.replay_window = (self.replay_window << (shift as u128)) | 1;
            }
            self.replay_window_base = index;
        } else {
            let delta: u64 = self.replay_window_base - index;
            if delta < 128 {
                self.replay_window = self.replay_window | (1u128 << (delta as u128));
            }
        }
    }

    // ----- RTCP -----

    /// An RTCP packet sealed under `index`: header, encrypted rest, the index
    /// with its encryption flag, identifier, tag.
    pub open spec fn sealed_rtcp(self, packet: Seq<u8>, index: u32) -> Seq<u8> {
        let body = packet.subrange(0, 8) + aes_cm(
            self.rtcp_keys.enc_key@,
            self.rtcp_keys.salt@,
            wire::u32_at(packet, 4),
            index as u64,
            packet.subrange(8, packet.len() as int),
        ) + wire::be32((0x8000_0000 + index) as u32);
        body + self.mki_bytes() + crypto::hmac_sha1_tag(self.rtcp_keys.auth_key@, body)@.subrange(
            0,
            10,
        )
    }

    /// State and result of `protect_rtcp`.
    pub open spec fn protect_rtcp_outcome(self, packet: Seq<u8>) -> (
        SrtpContext,
        Result<Seq<u8>, Seq<char>>,
    ) {
        if packet.len() < 8 {
            (self, Err("RTCP packet too short"@))
        } else if self.srtcp_index >= 0x8000_0000 {
            (self, Err("SRTCP index overflow: 31-bit index space exhausted"@))
        } else {
            (
                SrtpContext { srtcp_index: (self.srtcp_index + 1) as u32, ..self },
                Ok(self.sealed_rtcp(packet, self.srtcp_index)),
            )
        }
    }

    /// Encrypt and authenticate an RTCP packet.
    pub fn protect_rtcp(&mut self, packet: &[u8]) -> (r: Result<Vec<u8>, RtpSipError>)
        ensures
            *final(self) == old(self).protect_rtcp_outcome(packet@).0,
            outcome_matches(r, old(self).protect_rtcp_outcome(packet@).1),
            old(self).wf() ==> final(self).wf(),
    {
        if packet.len() < 8 {
            return Err(rtp_error("RTCP packet too short"));
        }
        let ssrc: u32 = read_u32(packet, 4);
        if self.srtcp_index >= 0x8000_0000 {
            return Err(rtp_error("SRTCP index overflow: 31-bit index space exhausted"));
        }
        let index: u32 = self.srtcp_index;
        self.srtcp_index = self.srtcp_index + 1;
        let mut output = copy_range(packet, 0, 8);
        let mut payload = copy_range(packet, 8, packet.len());
        aes_cm_encrypt_srtcp(
            &self.rtcp_keys.enc_key,
            &self.rtcp_keys.salt,
            ssrc,
            index,
            payload.as_mut_slice(),
        );
        push_bytes(&mut output, payload.as_slice());
        push_u32(&mut output, 0x8000_0000 + index);
        let full_tag = hmac_sha1(&self.rtcp_keys.auth_key, output.as_slice());
        let tag = copy_range(&full_tag, 0, 10);
        let ghost body = output@;
        match &self.mki {
            Some(m) => {
                push_bytes(&mut output, m.as_slice());
            },
            None => {
                assert(output@ =~= body + Seq::<u8>::empty());
            },
        }
        push_bytes(&mut output, tag.as_slice());
        assert(output@ =~= old(self).sealed_rtcp(packet@, index));
        Ok(output)
    }

    /// State and result of `unprotect_rtcp`.
    pub open spec fn unprotect_rtcp_outcome(self, packet: Seq<u8>) -> (
        SrtpContext,
        Result<Seq<u8>, Seq<char>>,
    ) {
        let body = packet.subrange(0, packet.len() - 10 - self.mki_len());
        let tag = packet.subrange(packet.len() - 10, packet.len() as int);
        let word = wire::u32_at(body, body.len() - 4);
        let index = (word % 0x8000_0000) as u32;
        let data = body.subrange(0, body.len() - 4);
        if packet.len() < 22 + self.mki_len() {
            (self, Err("SRTCP packet too short"@))
        } else if crypto::hmac_sha1_tag(self.rtcp_keys.auth_key@, body)@.subrange(0, 10) != tag {
            (self, Err("SRTCP authentication failed"@))
        } else if self.srtcp_replay_initialized && !rtcp_fresh(
            self.srtcp_replay_window,
            self.srtcp_replay_window_base,
            index as u64,
        ) {
            (self, Err("SRTCP replay detected"@))
        } else {
            (
                SrtpContext {
                    srtcp_replay_window: rtcp_window_with(
                        self.srtcp_replay_window,
                        self.srtcp_replay_window_base,
                        index as u64,
                    ),
                    srtcp_replay_window_base: higher(self.srtcp_replay_window_base, index as u64),
                    srtcp_replay_initialized: true,
                    ..self
                },
                Ok(
                    if word >= 0x8000_0000 {
                        data.subrange(0, 8) + aes_cm(
                            self.rtcp_keys.enc_key@,
                            self.rtcp_keys.salt@,
                            wire::u32_at(packet, 4),
                            index as u64,
                            data.subrange(8, data.len() as int),
                        )
                    } else {
                        data
                    },
                ),
            )
        }
    }

    /// Authenticate and decrypt an SRTCP packet.
    pub fn unprotect_rtcp(&mut self, packet: &[u8]) -> (r: Result<Vec<u8>, RtpSipError>)
        requires
            old(self).wf(),
            old(self).mki_len() + 22 <= usize::MAX,
        ensures
            *final(self) == old(self).unprotect_rtcp_outcome(packet@).0,
            outcome_matches(r, old(self).unprotect_rtcp_outcome(packet@).1),
            final(self).wf(),
    {
        let mki_len: usize = match self.mki_length {
            Some(n) => n,
            None => 0,
        };
        if packet.len() < 22 + mki_len {
            return Err(rtp_error("SRTCP packet too short"));
        }
        let ssrc: u32 = read_u32(packet, 4);
        let body = slice_subrange(packet, 0, packet.len() - 10 - mki_len);
        let received_tag = slice_subrange(packet, packet.len() - 10, packet.len());
        let full_tag = hmac_sha1(&self.rtcp_keys.auth_key, body);
        let computed_tag = copy_range(&full_tag, 0, 10);
        if !constant_time_eq(computed_tag.as_slice(), received_tag) {
            return Err(rtp_error("SRTCP authentication failed"));
        }
        let index_start: usize = body.len() - 4;
        let word: u32 = read_u32(body, index_start);
        let is_encrypted: bool = word >= 0x8000_0000;
        let index: u32 = word % 0x8000_0000;
        if self.srtcp_replay_initialized {
            if !self.check_srtcp_replay(index as u64) {
                return Err(rtp_error("SRTCP replay detected"));
            }
        }
        let ghost data = body@.subrange(0, index_start as int);
        let mut output = copy_range(body, 0, 8);
        let mut payload = copy_range(body, 8, index_start);
        assert(output@ =~= data.subrange(0, 8));
        assert(payload@ =~= data.subrange(8, data.len() as int));
        if is_encrypted {
            aes_cm_encrypt_srtcp(
                &self.rtcp_keys.enc_key,
                &self.rtcp_keys.salt,
                ssrc,
                index,
                payload.as_mut_slice(),
            );
        }
        push_bytes(&mut output, payload.as_slice());
        assert(data.subrange(0, 8) + data.subrange(8, data.len() as int) =~= data);
        self.accept_srtcp_replay(index as u64);
        self.srtcp_replay_initialized = true;
        Ok(output)
    }

    /// Whether an SRTCP index is above the replay window, or in it and not seen.
    pub fn check_srtcp_replay(&self, index: u64) -> (r: bool)
        ensures
            r == rtcp_fresh(self.srtcp_replay_window, self.srtcp_replay_window_base, index),
    {
        if index > self.srtcp_replay_window_base {
            return true;
        }
        let delta: u64 = self.srtcp_replay_window_base - index;
        if delta >= 64 {
            return false;
        }
        (self.srtcp_replay_window & (1u64 << delta)) == 0
    }

    /// Mark an SRTCP index as received.
    pub fn accept_srtcp_replay(&mut self, index: u64)
        ensures
            *final(self) == (SrtpContext {
                srtcp_replay_window: rtcp_window_with(
                    old(self).srtcp_replay_window,
                    old(self).srtcp_replay_window_base,
                    index,
                ),
                srtcp_replay_window_base: higher(old(self).srtcp_replay_window_base, index),
                ..*old(self)
            }),
    {
        if index > self.srtcp_replay_window_base {
            let shift: u64 = index - self.srtcp_replay_window_base;
            if shift >= 64 {
                self.srtcp_replay_window = 1;
            } else {
                self.srtcp_replay_window = (self.srtcp_replay_window << shift) | 1;
            }
            self.srtcp_replay_window_base = index;
        } else {
            let delta: u64 = self.srtcp_replay_window_base - index;
            if delta < 64 {
                self.srtcp_replay_window = self.srtcp_replay_window | (1u64 << delta);
            }
        }
    }

    /// Overwrite all key material with zeros.
    pub fn wipe(&mut self)
        ensures
            final(self).master_key@ == Seq::new(16, |i: int| 0u8),
            final(self).master_salt@ == Seq::new(14, |i: int| 0u8),
            final(self).rtp_keys.is_wiped(),
            final(self).rtcp_keys.is_wiped(),
            *final(self) == (SrtpContext {
                master_key: final(self).master_key,
                master_salt: final(self).master_salt,
                rtp_keys: final(self).rtp_keys,
                rtcp_keys: final(self).rtcp_keys,
                ..*old(self)
            }),
    {
        self.master_key = [0u8;16];
        self.master_salt = [0u8;14];
        self.rtp_keys = SessionKeys { enc_key: [0u8;16], auth_key: [0u8;20], salt: [0u8;14] };
        self.rtcp_keys = SessionKeys { enc_key: [0u8;16], auth_key: [0u8;20], salt: [0u8;14] };
        assert(self.master_key@ =~= Seq::new(16, |i: int| 0u8));
        assert(self.master_salt@ =~= Seq::new(14, |i: int| 0u8));
    }
}

// ---------------------------------------------------------------------------
// Laws
// ---------------------------------------------------------------------------

/// What a sender protects, a receiver with the same keys opens to the same
/// packet, whenever its estimate of the rollover counter is the sender's and
/// the index is not refused as a replay.
pub proof fn law_rtp_round_trip(sender: SrtpContext, receiver: SrtpContext, packet: Seq<u8>)
    requires
        sender.protect_rtp_outcome(packet).1 is Ok,
        receiver.suite == sender.suite,
        receiver.rtp_keys == sender.rtp_keys,
        receiver.mki_len() == sender.mki_bytes().len(),
        ({
            let heard = receiver.hearing(wire::u32_at(packet, 8));
            let index = sender.send_index(wire::u16_at(packet, 2));
            &&& heard.recv_index(wire::u16_at(packet, 2)) == index
            &&& heard.initialized ==> rtp_fresh(
                heard.replay_window,
                heard.replay_window_base,
                index,
            )
        }),
    ensures
        receiver.unprotect_rtp_outcome(sender.protect_rtp_outcome(packet).1->Ok_0).1 == Ok::<
            Seq<u8>,
            Seq<char>,
        >(packet),
{
    let index = sender.send_index(wire::u16_at(packet, 2));
    let h = rtp_header(packet)->Ok_0 as int;
    let key = sender.rtp_keys.enc_key@;
    let salt = sender.rtp_keys.salt@;
    let ssrc = wire::u32_at(packet, 8);
    let plain = packet.subrange(h, packet.len() as int);
    let cipher = aes_cm(key, salt, ssrc, index, plain);
    law_aes_cm_involution(key, salt, ssrc, index, plain);
    let body = packet.subrange(0, h) + cipher;
    let n = sender.suite.tag_len();
    let tag = rtp_tag(sender.rtp_keys.auth_key@, body, (index / 0x1_0000) as u32, n);
    let sealed = sender.sealed_rtp(packet, index);
    assert(12 <= h);
    assert(sealed =~= body + sender.mki_bytes() + tag);
    assert(tag.len() == n);
    assert(receiver.rtp_body(sealed) =~= body);
    assert(sealed.subrange(sealed.len() - n, sealed.len() as int) =~= tag);
    assert(forall|i: int| 0 <= i < 12 ==> sealed[i] == packet[i] && body[i] == packet[i]);
    let heard = receiver.hearing(ssrc);
    assert(heard.roc_for(wire::u16_at(packet, 2)) == (index / 0x1_0000) as u32);
    lemma_same_header(packet, body, h as nat);
    assert(body.subrange(0, h) =~= packet.subrange(0, h));
    assert(body.subrange(h, body.len() as int) =~= cipher);
    assert(packet.subrange(0, h) + plain =~= packet);
}

/// A header is measured by its own bytes.
proof fn lemma_same_header(p: Seq<u8>, q: Seq<u8>, h: nat)
    requires
        rtp_header(p) == Ok::<nat, Seq<char>>(h),
        p.len() == q.len(),
        forall|i: int| 0 <= i < h ==> p[i] == q[i],
    ensures
        rtp_header(q) == rtp_header(p),
{
    let fixed = 12 + 4 * (p[0] as int % 16);
    assert(p[0] == q[0]);
    if p[0] as nat / 16 % 2 == 1 {
        assert(fixed + 4 <= h);
        assert(p[fixed + 2] == q[fixed + 2] && p[fixed + 3] == q[fixed + 3]);
    }
}

/// A packet that was opened is refused when it comes again, and refusing it
/// changes nothing.
pub proof fn law_rtp_replay_refused(ctx: SrtpContext, packet: Seq<u8>)
    requires
        ctx.wf(),
        ctx.unprotect_rtp_outcome(packet).1 is Ok,
    ensures
        ({
            let after = ctx.unprotect_rtp_outcome(packet).0;
            after.unprotect_rtp_outcome(packet) == (
                after,
                Err::<Seq<u8>, Seq<char>>("SRTP packet rejected"@),
            )
        }),
{
    let seq = wire::u16_at(packet, 2);
    let ssrc = wire::u32_at(packet, 8);
    let heard = ctx.hearing(ssrc);
    let index = heard.recv_index(seq);
    let after = ctx.unprotect_rtp_outcome(packet).0;
    assert(after.hearing(ssrc) == after);
    assert(after.recv_index(seq) == index);
    law_rtp_window(heard.replay_window, heard.replay_window_base, index, index);
}

/// A packet that is not opened leaves the sender's state, the keys and the
/// SRTCP window alone; unless the source changed or the packet was
/// authenticated, it leaves the replay window and rollover counter alone too.
pub proof fn law_refused_rtp_changes_nothing(ctx: SrtpContext, packet: Seq<u8>)
    requires
        ctx.wf(),
        ctx.unprotect_rtp_outcome(packet).1 is Err,
    ensures
        ({
            let after = ctx.unprotect_rtp_outcome(packet).0;
            let whole = packet.len() >= 12 + ctx.suite.tag_len() + ctx.mki_len();
            &&& after == (SrtpContext {
                roc: after.roc,
                s_l: after.s_l,
                initialized: after.initialized,
                replay_window: after.replay_window,
                replay_window_base: after.replay_window_base,
                error_count: after.error_count,
                current_recv_ssrc: after.current_recv_ssrc,
                ..ctx
            })
            &&& !whole || (ctx.current_recv_ssrc == Some(wire::u32_at(packet, 8)) && rtp_header(
                ctx.rtp_body(packet),
            ) is Ok) ==> after == ctx || after == ctx.bumped()
        }),
{
}

/// A receiver of what a sender sends, which has opened none of it yet, or some
/// packet of it last; what was sent after that, it has not seen.
pub open spec fn in_step(sender: SrtpContext, receiver: SrtpContext) -> bool {
    &&& receiver.wf()
    &&& receiver.suite == sender.suite
    &&& receiver.rtp_keys == sender.rtp_keys
    &&& receiver.mki_len() == sender.mki_bytes().len()
    &&& receiver.initialized ==> {
        &&& sender.packets_encrypted > 0
        &&& receiver.highest_index() <= sender.last_sent_index
        &&& receiver.replay_window_base == receiver.highest_index()
    }
}

/// A packet is near enough to be placed: one rollover period from the start for
/// a receiver that has opened none, and half a period from the last that it
/// opened for another. At exactly half a period, the sequence number must not
/// have wrapped.
pub open spec fn in_reach(receiver: SrtpContext, index: u64) -> bool {
    if receiver.initialized {
        let ahead = index - receiver.highest_index();
        ahead < 0x8000 || (ahead == 0x8000 && receiver.s_l < 0x8000)
    } else {
        index < 0x1_0000
    }
}

/// A stream that arrives in order opens packet by packet, over any number of
/// rollovers and whatever is lost, as long as every packet that arrives is in
/// reach of the one that was opened before it.
pub proof fn law_stream_opens(sender: SrtpContext, receiver: SrtpContext, packet: Seq<u8>)
    requires
        in_step(sender, receiver),
        sender.protect_rtp_outcome(packet).1 is Ok,
        receiver.initialized ==> receiver.current_recv_ssrc == Some(wire::u32_at(packet, 8)),
        in_reach(receiver, sender.send_index(wire::u16_at(packet, 2))),
    ensures
        ({
            let (sent, sealed) = sender.protect_rtp_outcome(packet);
            let (after, opened) = receiver.unprotect_rtp_outcome(sealed->Ok_0);
            &&& opened == Ok::<Seq<u8>, Seq<char>>(packet)
            &&& in_step(sent, after)
            &&& after.highest_index() == sent.last_sent_index
            &&& after.current_recv_ssrc == Some(wire::u32_at(packet, 8))
        }),
{
    let seq = wire::u16_at(packet, 2);
    let ssrc = wire::u32_at(packet, 8);
    let index = sender.send_index(seq);
    let heard = receiver.hearing(ssrc);
    lemma_send_index(sender, seq);
    lemma_same_index(heard, seq, index);
    law_rtp_round_trip(sender, receiver, packet);
    lemma_sealed_head(sender, packet, index);
    let sealed = sender.sealed_rtp(packet, index);
    let after = receiver.unprotect_rtp_outcome(sealed).0;
    assert(wire::u16_at(sealed, 2) == seq && wire::u32_at(sealed, 8) == ssrc);
    assert(after == (SrtpContext { error_count: 0, ..heard.accepting(seq) }));
}

/// A packet that is lost on the way, or refused by the sender, leaves the
/// receiver in step.
pub proof fn law_lost_packet_keeps_step(
    sender: SrtpContext,
    receiver: SrtpContext,
    packet: Seq<u8>,
)
    requires
        in_step(sender, receiver),
    ensures
        in_step(sender.protect_rtp_outcome(packet).0, receiver),
{
}

/// An index ends in the sequence number, and has 48 bits.
pub proof fn lemma_send_index(sender: SrtpContext, seq: u16)
    ensures
        sender.send_index(seq) % 0x1_0000 == seq,
        sender.send_index(seq) < 0x1_0000_0000_0000,
{
    let roc = sender.send_counter / 0x1_0000;
    assert(roc < 0x1_0000_0000_0000);
    let next = sender.next_send_counter(seq);
    assert(next % 0x1_0000 == seq);
}

/// A receiver takes a packet in reach to have the index under which it was
/// sent.
proof fn lemma_same_index(receiver: SrtpContext, seq: u16, index: u64)
    requires
        index % 0x1_0000 == seq,
        index < 0x1_0000_0000_0000,
        in_reach(receiver, index),
        receiver.initialized ==> receiver.highest_index() < index,
    ensures
        receiver.recv_index(seq) == index,
{
    if receiver.initialized {
        let roc = receiver.roc as int;
        let low = receiver.s_l as int;
        let high = index / 0x1_0000;
        assert(index == high * 0x1_0000 + seq);
        if seq > low {
            assert(high == roc);
        } else {
            assert(high == roc + 1);
        }
    }
}

/// Sealing leaves the fixed part of the header as it is.
proof fn lemma_sealed_head(sender: SrtpContext, packet: Seq<u8>, index: u64)
    requires
        rtp_header(packet) is Ok,
    ensures
        forall|i: int| 0 <= i < 12 ==> sender.sealed_rtp(packet, index)[i] == packet[i],
{
    assert(rtp_header(packet)->Ok_0 >= 12);
}

/// The indices that a sender uses only go up.
pub proof fn law_send_index_increases(ctx: SrtpContext, first: Seq<u8>, second: Seq<u8>)
    requires
        ctx.protect_rtp_outcome(first).1 is Ok,
        ctx.protect_rtp_outcome(first).0.protect_rtp_outcome(second).1 is Ok,
    ensures
        ctx.send_index(wire::u16_at(first, 2)) < ctx.protect_rtp_outcome(first).0.send_index(
            wire::u16_at(second, 2),
        ),
{
}

/// What a sender protects of RTCP, a receiver with the same keys opens to the
/// same packet, whenever the index is not refused as a replay.
#[verifier::rlimit(40)]
pub proof fn law_rtcp_round_trip(sender: SrtpContext, receiver: SrtpContext, packet: Seq<u8>)
    requires
        sender.protect_rtcp_outcome(packet).1 is Ok,
        receiver.rtcp_keys == sender.rtcp_keys,
        receiver.mki_len() == sender.mki_bytes().len(),
        receiver.srtcp_replay_initialized ==> rtcp_fresh(
            receiver.srtcp_replay_window,
            receiver.srtcp_replay_window_base,
            sender.srtcp_index as u64,
        ),
    ensures
        receiver.unprotect_rtcp_outcome(sender.protect_rtcp_outcome(packet).1->Ok_0).1 == Ok::<
            Seq<u8>,
            Seq<char>,
        >(packet),
{
    let index = sender.srtcp_index;
    let key = sender.rtcp_keys.enc_key@;
    let salt = sender.rtcp_keys.salt@;
    let ssrc = wire::u32_at(packet, 4);
    let plain = packet.subrange(8, packet.len() as int);
    let cipher = aes_cm(key, salt, ssrc, index as u64, plain);
    law_aes_cm_involution(key, salt, ssrc, index as u64, plain);
    let word = (0x8000_0000 + index) as u32;
    let data = packet.subrange(0, 8) + cipher;
    let body = data + wire::be32(word);
    let tag = crypto::hmac_sha1_tag(sender.rtcp_keys.auth_key@, body)@.subrange(0, 10);
    let sealed = sender.sealed_rtcp(packet, index);
    assert(sealed =~= body + sender.mki_bytes() + tag);
    assert(sealed.subrange(0, sealed.len() - 10 - receiver.mki_len()) =~= body);
    assert(sealed.subrange(sealed.len() - 10, sealed.len() as int) =~= tag);
    assert(body.subrange(body.len() - 4, body.len() as int) =~= wire::be32(word));
    wire::lemma_be32_read(body, body.len() - 4, word);
    assert(body.subrange(0, body.len() - 4) =~= data);
    assert(data.subrange(0, 8) =~= packet.subrange(0, 8));
    assert(data.subrange(8, data.len() as int) =~= cipher);
    assert(forall|i: int| 0 <= i < 8 ==> sealed[i] == packet[i]);
    assert(packet.subrange(0, 8) + plain =~= packet);
}

/// An RTCP packet that was opened is refused when it comes again, and refusing
/// it changes nothing.
pub proof fn law_rtcp_replay_refused(ctx: SrtpContext, packet: Seq<u8>)
    requires
        ctx.wf(),
        ctx.unprotect_rtcp_outcome(packet).1 is Ok,
    ensures
        ({
            let after = ctx.unprotect_rtcp_outcome(packet).0;
            after.unprotect_rtcp_outcome(packet) == (
                after,
                Err::<Seq<u8>, Seq<char>>("SRTCP replay detected"@),
            )
        }),
{
    let body = packet.subrange(0, packet.len() - 10 - ctx.mki_len());
    let index = (wire::u32_at(body, body.len() - 4) % 0x8000_0000) as u64;
    law_rtcp_window(ctx.srtcp_replay_window, ctx.srtcp_replay_window_base, index, index);
}

/// A result that carries what the model says: the bytes, or an RTP error with
/// the given text.
pub open spec fn outcome_matches(
    r: Result<Vec<u8>, RtpSipError>,
    m: Result<Seq<u8>, Seq<char>>,
) -> bool {
    match r {
        Ok(v) => m == Ok::<Seq<u8>, Seq<char>>(v@),
        Err(e) => m is Err && e.is_rtp(m->Err_0),
    }
}

} // verus!
