//! What crypto attributes say.

use crate::rtp::sdes;
use crate::rtp::srtp::SrtpCipherSuite;
use crate::text;
use crate::wire;
use vstd::prelude::*;

verus! {

/// The bytes of a number: as many as asked for, which stand for it, or for what
/// they can hold of it.
pub proof fn law_identifier_bytes(x: nat, n: nat)
    ensures
        sdes::low_bytes_of(x, n).len() == n,
        wire::number(sdes::low_bytes_of(x, n)) == x as int % wire::range(n),
    decreases n,
{
    let b = sdes::low_bytes_of(x, n);
    if n > 0 {
        law_identifier_bytes(x / 256, (n - 1) as nat);
        let r = wire::range((n - 1) as nat);
        lemma_range((n - 1) as nat);
        assert(b.drop_last() =~= sdes::low_bytes_of(x / 256, (n - 1) as nat));
        let y = x as int;
        vstd::arithmetic::div_mod::lemma_fundamental_div_mod(y / 256, r);
        let q = y / 256 / r;
        let low = y / 256 % r;
        assert(y == (0x100 * r) * q + (0x100 * low + y % 256)) by (nonlinear_arith)
            requires
                y / 256 == r * q + low,
                y == 256 * (y / 256) + y % 256,
        ;
        assert(0 <= 0x100 * low + y % 256 < 0x100 * r);
        assert((0x100 * r) * q == q * (0x100 * r)) by (nonlinear_arith);
        vstd::arithmetic::div_mod::lemma_fundamental_div_mod_converse(
            y,
            0x100 * r,
            q,
            0x100 * low + y % 256,
        );
    } else {
        assert(x as int % 1 == 0);
    }
}

proof fn lemma_range(n: nat)
    ensures
        wire::range(n) >= 1,
    decreases n,
{
    if n > 0 {
        lemma_range((n - 1) as nat);
    }
}

/// The number that an identifier of up to sixteen bytes is written as is the one
/// that its bytes stand for.
pub proof fn law_identifier_number(bytes: Seq<u8>)
    requires
        bytes.len() <= 16,
    ensures
        sdes::number_of(bytes) == wire::number(bytes),
    decreases bytes.len(),
{
    if bytes.len() > 0 {
        let front = bytes.drop_last();
        law_identifier_number(front);
        wire::lemma_number_bound(bytes);
        lemma_range_bound(bytes.len());
        let x = sdes::number_of(front) * 256 + bytes.last() as nat;
        assert(x == wire::number(bytes));
        vstd::arithmetic::div_mod::lemma_small_mod(x, u128::MAX as nat + 1);
    }
}

proof fn lemma_range_bound(n: nat)
    requires
        n <= 16,
    ensures
        wire::range(n) <= u128::MAX + 1,
    decreases 16 - n,
{
    if n == 16 {
        reveal_with_fuel(wire::range, 17);
    } else {
        lemma_range_bound(n + 1);
        lemma_range(n);
    }
}

/// A field of a number, a colon and a length from 1 to 16 is an identifier of
/// that many bytes, which stand for the number; another length makes it none.
pub proof fn law_identifier_read(value: u128, len: usize)
    ensures
        ({
            let field = text::decimal_text(value as nat).push(':') + text::decimal_text(len as nat);
            match sdes::mki_field(field) {
                Some(m) => 1 <= len <= 16 && m.len() == len && wire::number(m) == value as int
                    % wire::range(len as nat),
                None => len == 0 || len > 16,
            }
        }),
{
    let a = text::decimal_text(value as nat);
    let b = text::decimal_text(len as nat);
    let field = a.push(':') + b;
    let k = a.len() as int;
    sdes::lemma_decimal_plain(value as nat);
    assert forall|i: int| 0 <= i < k implies #[trigger] field[i] != ':' by {
        assert(field[i] == a[i]);
    }
    assert(field[k] == ':');
    text::lemma_first_of(field, ':', k);
    assert(field.subrange(0, k) =~= a);
    assert(field.subrange(k + 1, field.len() as int) =~= b);
    text::lemma_parse_decimal_text(value as nat, u128::MAX as nat);
    text::lemma_parse_decimal_text(len as nat, usize::MAX as nat);
    law_identifier_bytes(value as nat, len as nat);
}

/// Of several identifiers the last one counts; what is none is passed over.
pub proof fn law_last_identifier(parts: Seq<Seq<char>>, part: Seq<char>)
    ensures
        sdes::last_mki(Seq::empty()) is None,
        sdes::mki_field(part) is Some ==> sdes::last_mki(parts.push(part)) == sdes::mki_field(part),
        sdes::mki_field(part) is None ==> sdes::last_mki(parts.push(part)) == sdes::last_mki(parts),
{
    assert(parts.push(part).drop_last() =~= parts);
}

/// Key and salt are thirty bytes together, no more and no fewer, and stay as
/// they were decoded.
pub proof fn law_key_material(
    tag: u32,
    suite: SrtpCipherSuite,
    mki: Option<Seq<u8>>,
    k: Seq<u8>,
)
    ensures
        match sdes::with_key_model(tag, suite, mki, k) {
            Ok(c) => k.len() == 30 && c.key_material == k && c.tag == tag && c.suite == suite
                && c.mki == mki,
            Err(_) => k.len() != 30,
        },
{
}

/// What is read of an attribute of three words: the number of the first, the
/// suite that the second names, and the key behind `inline:` in the third, up to
/// the first bar.
pub proof fn law_attribute_read(s: Seq<char>, tag: Seq<char>, name: Seq<char>, key: Seq<char>)
    requires
        text::words(s) == seq![tag, name, "inline:"@ + key],
        forall|i: int| 0 <= i < key.len() ==> #[trigger] key[i] != '|',
    ensures
        match sdes::crypto_model(s) {
            Ok(c) => {
                &&& text::parsed_unsigned(tag, u32::MAX as nat) == Some(c.tag as nat)
                &&& c.suite.name() == name
                &&& sdes::base64_decoded(key) == Ok::<Seq<u8>, Seq<char>>(c.key_material)
                &&& c.key_material.len() == 30
                &&& c.mki is None
            },
            Err(_) => {
                ||| text::parsed_unsigned(tag, u32::MAX as nat) is None
                ||| name != "AES_CM_128_HMAC_SHA1_80"@ && name != "AES_CM_128_HMAC_SHA1_32"@
                ||| sdes::base64_decoded(key) is Err
                ||| sdes::base64_decoded(key)->Ok_0.len() != 30
            },
        },
{
    reveal_strlit("inline:");
    let w = "inline:"@ + key;
    assert(w.subrange(0, 7) =~= "inline:"@);
    assert(w.subrange(7, w.len() as int) =~= key);
    assert(sdes::has_inline(w));
    sdes::lemma_pieces_single(key, '|');
    let parts = text::pieces(key, '|');
    assert(parts.subrange(1, 1) =~= Seq::<Seq<char>>::empty());
    assert(text::words(s)[0] == tag);
    assert(text::words(s)[1] == name);
    assert(text::words(s)[2] == w);
    assert(parts[0] == key);
}

/// Fewer than three words, or a third that does not begin with `inline:`, are no
/// attribute.
pub proof fn law_no_attribute(s: Seq<char>)
    requires
        text::words(s).len() < 3 || !("inline:"@.is_prefix_of(text::words(s)[2])),
    ensures
        sdes::crypto_model(s) is Err,
{
    reveal_strlit("inline:");
    if text::words(s).len() >= 3 {
        let w = text::words(s)[2];
        if w.len() >= 7 && w.subrange(0, 7) == "inline:"@ {
            assert("inline:"@.is_prefix_of(w));
        }
    }
}

/// A suite is named by its name, and both by their own.
pub proof fn law_suites_named(s: Seq<char>, suite: SrtpCipherSuite)
    ensures
        SrtpCipherSuite::named(s) == Some(suite) <==> s == suite.name(),
        suite is AesCm128HmacSha1_80 ==> suite.name() == "AES_CM_128_HMAC_SHA1_80"@,
        suite is AesCm128HmacSha1_32 ==> suite.name() == "AES_CM_128_HMAC_SHA1_32"@,
{
    sdes::lemma_suite_name(suite);
}

} // verus!
