//! The `a=crypto:` attribute by which SRTP keys are exchanged in SDP.

pub mod laws;

use crate::error::{rtp_error, RtpSipError};
use crate::random::random_bytes;
use crate::rtp::srtp::SrtpCipherSuite;
use crate::text;
use base64::engine::general_purpose::STANDARD;
use base64::Engine;
use vstd::prelude::*;
use vstd::slice::slice_subrange;
use vstd::string::*;

verus! {

/// What a base64 text decodes to, or the reason why it does not decode.
pub uninterp spec fn base64_decoded(t: Seq<char>) -> Result<Seq<u8>, Seq<char>>;

/// The base64 text of some bytes.
pub uninterp spec fn base64_text(data: Seq<u8>) -> Seq<char>;

/// The characters of base64, with its padding.
pub open spec fn is_base64_char(c: char) -> bool {
    ||| 'A' <= c && c <= 'Z'
    ||| 'a' <= c && c <= 'z'
    ||| '0' <= c && c <= '9'
    ||| c == '+'
    ||| c == '/'
    ||| c == '='
}

/// Calls `base64::Engine::decode` with the standard alphabet. The bytes, or the
/// text of the error, are a function of the argument, which `base64_decoded`
/// names.
#[verifier::external_body]
fn decode_base64(t: &str) -> (r: Result<Vec<u8>, String>)
    ensures
        match r {
            Ok(v) => base64_decoded(t@) is Ok && base64_decoded(t@)->Ok_0 == v@,
            Err(e) => base64_decoded(t@) is Err && base64_decoded(t@)->Err_0 == e@,
        },
{
    STANDARD.decode(t).map_err(|e| e.to_string())
}

/// Calls `base64::Engine::encode` with the standard alphabet. The text is a
/// function of the bytes, which `base64_text` names; it is made of the base64
/// characters only and decodes to the bytes.
#[verifier::external_body]
fn encode_base64(data: &[u8]) -> (s: String)
    requires
        data@.len() * 2 <= isize::MAX,
    ensures
        s@ == base64_text(data@),
        base64_decoded(s@) is Ok && base64_decoded(s@)->Ok_0 == data@,
        forall|i: int| 0 <= i < s@.len() ==> is_base64_char(#[trigger] s@[i]),
{
    STANDARD.encode(data)
}

/// The low `n` bytes of a number, most significant first.
pub open spec fn low_bytes_of(x: nat, n: nat) -> Seq<u8>
    decreases n,
{
    if n == 0 {
        Seq::empty()
    } else {
        low_bytes_of(x / 256, (n - 1) as nat).push((x % 256) as u8)
    }
}

/// The number that some bytes spell, modulo two to the power 128.
pub open spec fn number_of(bytes: Seq<u8>) -> nat
    decreases bytes.len(),
{
    if bytes.len() == 0 {
        0
    } else {
        (number_of(bytes.drop_last()) * 256 + bytes.last() as nat)
            % (u128::MAX as nat + 1)
    }
}

/// The identifier in a `value:length` field: `value` in `length` bytes, where
/// both are numbers and `length` is 1 to 16.
pub open spec fn mki_field(part: Seq<char>) -> Option<Seq<u8>> {
    let n = text::first_of(part, ':') as int;
    if n >= part.len() {
        None
    } else {
        let len = text::parsed_unsigned(part.subrange(n + 1, part.len() as int), usize::MAX as nat);
        let value = text::parsed_unsigned(part.subrange(0, n), u128::MAX as nat);
        match (len, value) {
            (Some(l), Some(v)) => if 0 < l && l <= 16 {
                Some(low_bytes_of(v, l))
            } else {
                None
            },
            _ => None,
        }
    }
}

/// The last identifier among some fields.
pub open spec fn last_mki(parts: Seq<Seq<char>>) -> Option<Seq<u8>>
    decreases parts.len(),
{
    if parts.len() == 0 {
        None
    } else {
        match mki_field(parts.last()) {
            Some(m) => Some(m),
            None => last_mki(parts.drop_last()),
        }
    }
}

/// The mathematical content of a crypto attribute.
pub struct CryptoModel {
    pub tag: u32,
    pub suite: SrtpCipherSuite,
    /// Master key, then master salt.
    pub key_material: Seq<u8>,
    pub mki: Option<Seq<u8>>,
    pub mki_length: Option<usize>,
}

/// What an attribute value means, given how base64 decodes, or what is wrong
/// with it.
pub open spec fn crypto_model(s: Seq<char>) -> Result<CryptoModel, Seq<char>> {
    let w = text::words(s);
    if w.len() < 3 {
        Err("Invalid crypto attribute: too few fields"@)
    } else {
        match text::parsed_unsigned(w[0], u32::MAX as nat) {
            None => Err("Invalid crypto tag"@),
            Some(tag) => match SrtpCipherSuite::named(w[1]) {
                None => Err("Unsupported cipher suite: "@ + w[1]),
                Some(suite) => if !has_inline(w[2]) {
                    Err("Crypto key must start with 'inline:'"@)
                } else {
                    let parts = text::pieces(w[2].subrange(7, w[2].len() as int), '|');
                    match base64_decoded(parts[0]) {
                        Err(e) => Err("Invalid base64 key: "@ + e),
                        Ok(k) => with_key_model(
                            tag as u32,
                            suite,
                            last_mki(parts.subrange(1, parts.len() as int)),
                            k,
                        ),
                    }
                },
            },
        }
    }
}

/// The text starts with `inline:`.
pub open spec fn has_inline(s: Seq<char>) -> bool {
    s.len() >= 7 && s.subrange(0, 7) == "inline:"@
}

/// The attribute with decoded key material, which must be 30 bytes.
pub open spec fn with_key_model(
    tag: u32,
    suite: SrtpCipherSuite,
    mki: Option<Seq<u8>>,
    k: Seq<u8>,
) -> Result<CryptoModel, Seq<char>> {
    if k.len() != 30 {
        Err("Master key material must be 30 bytes, got "@ + text::decimal_text(k.len()))
    } else {
        Ok(
            CryptoModel {
                tag,
                suite,
                key_material: k,
                mki,
                mki_length: match mki {
                    Some(m) => Some(m.len() as usize),
                    None => None,
                },
            },
        )
    }
}

/// A parsed crypto attribute.
#[derive(Debug, Clone)]
pub struct CryptoAttribute {
    /// Tag number.
    pub tag: u32,
    /// Cipher suite.
    pub suite: SrtpCipherSuite,
    /// Master key.
    pub master_key: [u8; 16],
    /// Master salt.
    pub master_salt: [u8; 14],
    /// Master key identifier.
    pub mki: Option<Vec<u8>>,
    /// Declared length of the identifier.
    pub mki_length: Option<usize>,
}

impl View for CryptoAttribute {
    type V = CryptoModel;

    open spec fn view(&self) -> CryptoModel {
        CryptoModel {
            tag: self.tag,
            suite: self.suite,
            key_material: self.master_key@ + self.master_salt@,
            mki: match self.mki {
                Some(m) => Some(m@),
                None => None,
            },
            mki_length: self.mki_length,
        }
    }
}

/// A result that carries what the model says.
pub open spec fn crypto_matches(
    r: Result<CryptoAttribute, RtpSipError>,
    m: Result<CryptoModel, Seq<char>>,
) -> bool {
    match r {
        Ok(c) => m == Ok::<CryptoModel, Seq<char>>(c@),
        Err(e) => m is Err && e.is_rtp(m->Err_0),
    }
}

/// The low `n` bytes of `x`, most significant first.
fn low_bytes(x: u128, n: usize) -> (v: Vec<u8>)
    ensures
        v@ == low_bytes_of(x as nat, n as nat),
    decreases n,
{
    if n == 0 {
        Vec::new()
    } else {
        let mut v = low_bytes(x / 256, n - 1);
        v.push((x % 256) as u8);
        v
    }
}

/// The identifier in a `value:length` field.
fn parse_mki_field(part: &[char]) -> (r: Option<Vec<u8>>)
    ensures
        match r {
            Some(m) => mki_field(part@) == Some(m@) && 0 < m@.len() <= 16,
            None => mki_field(part@) is None,
        },
{
    let n: usize = text::find_from(part, ':', 0);
    assert(part@.subrange(0, part@.len() as int) =~= part@);
    if n == part.len() {
        return None;
    }
    let len = text::parse_unsigned(slice_subrange(part, n + 1, part.len()), usize::MAX as u128);
    let value = text::parse_unsigned(slice_subrange(part, 0, n), u128::MAX);
    match (len, value) {
        (Some(l), Some(v)) => {
            if l > 0 && l <= 16 {
                let m = low_bytes(v, l as usize);
                proof {
                    lemma_low_bytes_len(v as nat, l as nat);
                }
                Some(m)
            } else {
                None
            }
        },
        _ => None,
    }
}

proof fn lemma_low_bytes_len(x: nat, n: nat)
    ensures
        low_bytes_of(x, n).len() == n,
    decreases n,
{
    if n > 0 {
        lemma_low_bytes_len(x / 256, (n - 1) as nat);
    }
}

/// Whether some characters start with `inline:`.
fn starts_with_inline(s: &[char]) -> (r: bool)
    ensures
        r == has_inline(s@),
{
    proof {
        reveal_strlit("inline:");
    }
    if s.len() < 7 {
        return false;
    }
    let r = s[0] == 'i' && s[1] == 'n' && s[2] == 'l' && s[3] == 'i' && s[4] == 'n' && s[5] == 'e'
        && s[6] == ':';
    assert(r ==> s@.subrange(0, 7) =~= "inline:"@);
    assert(!r ==> s@.subrange(0, 7) != "inline:"@) by {
        let t = s@.subrange(0, 7);
        assert(t[0] == s@[0] && t[1] == s@[1] && t[2] == s@[2] && t[3] == s@[3] && t[4] == s@[4]
            && t[5] == s@[5] && t[6] == s@[6]);
    }
    r
}

impl CryptoAttribute {
    /// Parse an attribute value: tag, suite, then `inline:` with the base64 of
    /// key and salt, and optional `|`-separated lifetime and identifier.
    pub fn parse(value: &str) -> (r: Result<CryptoAttribute, RtpSipError>)
        ensures
            crypto_matches(r, crypto_model(value@)),
    {
        let chars = text::chars_of(value);
        let ranges = text::find_words(chars.as_slice());
        let ghost w = text::words(value@);
        assert(w.len() == ranges@.len());
        if ranges.len() < 3 {
            return Err(rtp_error("Invalid crypto attribute: too few fields"));
        }
        let (a0, b0) = ranges[0];
        let (a1, b1) = ranges[1];
        let (a2, b2) = ranges[2];
        assert(w[0] == value@.subrange(a0 as int, b0 as int));
        assert(w[1] == value@.subrange(a1 as int, b1 as int));
        assert(w[2] == value@.subrange(a2 as int, b2 as int));
        let tag: u32 = match text::parse_unsigned(
            slice_subrange(chars.as_slice(), a0, b0),
            u32::MAX as u128,
        ) {
            Some(t) => t as u32,
            None => {
                return Err(rtp_error("Invalid crypto tag"));
            },
        };
        let suite_name = value.substring_char(a1, b1);
        let suite = match SrtpCipherSuite::from_str(suite_name) {
            Some(s) => s,
            None => {
                return Err(
                    RtpSipError::Rtp(
                        String::from_str("Unsupported cipher suite: ").concat(suite_name),
                    ),
                );
            },
        };
        let key_param = slice_subrange(chars.as_slice(), a2, b2);
        if !starts_with_inline(key_param) {
            return Err(rtp_error("Crypto key must start with 'inline:'"));
        }
        let inline = slice_subrange(key_param, 7, key_param.len());
        let parts = text::find_pieces(inline, '|');
        let ghost p = text::pieces(inline@, '|');
        assert(p == text::stretches(inline@, parts@));
        let mut mki: Option<Vec<u8>> = None;
        let mut i: usize = 1;
        while i < parts.len()
            invariant
                1 <= i <= parts@.len(),
                text::ranges_fit(parts@, inline@.len()),
                p == text::stretches(inline@, parts@),
                match mki {
                    Some(m) => last_mki(p.subrange(1, i as int)) == Some(m@) && 0 < m@.len() <= 16,
                    None => last_mki(p.subrange(1, i as int)) is None,
                },
            decreases parts@.len() - i,
        {
            let (a, b) = parts[i];
            let field = parse_mki_field(slice_subrange(inline, a, b));
            proof {
                let upto = p.subrange(1, i + 1);
                assert(upto.drop_last() =~= p.subrange(1, i as int));
                assert(upto.last() == inline@.subrange(a as int, b as int));
            }
            if field.is_some() {
                mki = field;
            }
            i += 1;
        }
        let (ka, kb) = parts[0];
        let b64 = value.substring_char(a2 + 7 + ka, a2 + 7 + kb);
        assert(b64@ =~= p[0]);
        assert(inline@ =~= w[2].subrange(7, w[2].len() as int));
        match decode_base64(b64) {
            Ok(k) => CryptoAttribute::with_key_material(tag, suite, mki, k.as_slice()),
            Err(e) => Err(
                RtpSipError::Rtp(String::from_str("Invalid base64 key: ").concat(e.as_str())),
            ),
        }
    }

    /// The attribute with decoded key material: 16 bytes of key, then 14 of
    /// salt.
    pub fn with_key_material(
        tag: u32,
        suite: SrtpCipherSuite,
        mki: Option<Vec<u8>>,
        k: &[u8],
    ) -> (r: Result<CryptoAttribute, RtpSipError>)
        ensures
            crypto_matches(
                r,
                with_key_model(
                    tag,
                    suite,
                    match mki {
                        Some(m) => Some(m@),
                        None => None,
                    },
                    k@,
                ),
            ),
    {
        if k.len() != 30 {
            return Err(
                RtpSipError::Rtp(
                    String::from_str("Master key material must be 30 bytes, got ").concat(
                        text::decimal(k.len() as u128).as_str(),
                    ),
                ),
            );
        }
        let master_key: [u8; 16] = [
            k[0], k[1], k[2], k[3], k[4], k[5], k[6], k[7], k[8], k[9], k[10], k[11], k[12], k[13],
            k[14], k[15],
        ];
        let master_salt: [u8; 14] = [
            k[16], k[17], k[18], k[19], k[20], k[21], k[22], k[23], k[24], k[25], k[26], k[27],
            k[28], k[29],
        ];
        assert(master_key@ + master_salt@ =~= k@);
        let mki_length: Option<usize> = match &mki {
            Some(m) => Some(m.len()),
            None => None,
        };
        Ok(CryptoAttribute { tag, suite, master_key, master_salt, mki, mki_length })
    }

    /// A new attribute with random key material, tag 1 and no identifier.
    pub fn generate(suite: SrtpCipherSuite) -> (c: CryptoAttribute)
        ensures
            c.tag == 1,
            c.suite == suite,
            c.mki is None,
            c.mki_length is None,
    {
        let k = random_bytes(16);
        let s = random_bytes(14);
        CryptoAttribute {
            tag: 1,
            suite,
            master_key: [
                k[0], k[1], k[2], k[3], k[4], k[5], k[6], k[7], k[8], k[9], k[10], k[11], k[12],
                k[13], k[14], k[15],
            ],
            master_salt: [
                s[0], s[1], s[2], s[3], s[4], s[5], s[6], s[7], s[8], s[9], s[10], s[11], s[12],
                s[13],
            ],
            mki: None,
            mki_length: None,
        }
    }

    /// The identifier and its declared length agree, and the length is one that
    /// an attribute value can declare.
    pub open spec fn mki_consistent(self) -> bool {
        match self.mki {
            Some(m) => self.mki_length == Some(m@.len() as usize) && 0 < m@.len() <= 16,
            None => self.mki_length is None,
        }
    }

    /// The attribute value.
    pub open spec fn sdp_text(self) -> Seq<char> {
        text::decimal_text(self.tag as nat) + " "@ + self.suite.name() + " "@ + self.inline_text()
    }

    /// The key parameter of the attribute value.
    pub open spec fn inline_text(self) -> Seq<char> {
        "inline:"@ + base64_text(self.master_key@ + self.master_salt@) + self.mki_text()
    }

    /// The identifier in the attribute value.
    pub open spec fn mki_text(self) -> Seq<char> {
        match (self.mki, self.mki_length) {
            (Some(m), Some(n)) => "|"@ + text::decimal_text(number_of(m@)) + ":"@
                + text::decimal_text(n as nat),
            _ => Seq::empty(),
        }
    }

    /// Format the attribute value. Where identifier and length are consistent,
    /// parsing it gives the attribute back.
    pub fn to_sdp_value(&self) -> (s: String)
        ensures
            s@ == self.sdp_text(),
            self.mki_consistent() ==> crypto_model(s@) == Ok::<CryptoModel, Seq<char>>(self@),
    {
        let mut key_material: Vec<u8> = Vec::new();
        crate::wire::push_bytes(&mut key_material, &self.master_key);
        crate::wire::push_bytes(&mut key_material, &self.master_salt);
        assert(key_material@ =~= self.master_key@ + self.master_salt@);
        let b64 = encode_base64(key_material.as_slice());
        let mut s = text::decimal(self.tag as u128);
        s.append(" ");
        s.append(self.suite.as_str());
        s.append(" ");
        let ghost head = s@;
        let mut key = String::from_str("inline:");
        key.append(b64.as_str());
        match (&self.mki, self.mki_length) {
            (Some(m), Some(n)) => {
                let v: u128 = mki_number(m.as_slice());
                key.append("|");
                key.append(text::decimal(v).as_str());
                key.append(":");
                key.append(text::decimal(n as u128).as_str());
            },
            _ => {},
        }
        assert(key@ =~= self.inline_text());
        s.append(key.as_str());
        assert(s@ =~= self.sdp_text());
        proof {
            if self.mki_consistent() {
                lemma_sdp_round_trip(*self, b64@);
            }
        }
        s
    }
}

/// The number that some bytes spell, modulo two to the power 128.
fn mki_number(bytes: &[u8]) -> (v: u128)
    ensures
        v == number_of(bytes@),
{
    let mut v: u128 = 0;
    let mut i: usize = 0;
    while i < bytes.len()
        invariant
            i <= bytes@.len(),
            v == number_of(bytes@.subrange(0, i as int)),
        decreases bytes@.len() - i,
    {
        let ghost upto = bytes@.subrange(0, i + 1);
        assert(upto.drop_last() =~= bytes@.subrange(0, i as int));
        assert((v * 256 + bytes@[i as int]) % (u128::MAX as int + 1) == (v
            % 0x1_0000_0000_0000_0000_0000_0000_0000_00) * 256 + bytes@[i as int]);
        v = v % 0x1_0000_0000_0000_0000_0000_0000_0000_00 * 256 + bytes[i] as u128;
        i += 1;
    }
    assert(bytes@.subrange(0, i as int) =~= bytes@);
    v
}

/// A word followed by a space and more text is the first word.
proof fn lemma_words_cons(w: Seq<char>, rest: Seq<char>)
    requires
        w.len() > 0,
        forall|i: int| 0 <= i < w.len() ==> !text::is_white(#[trigger] w[i]),
    ensures
        text::words(w + " "@ + rest) == seq![w] + text::words(rest),
{
    reveal_strlit(" ");
    let s = w + " "@ + rest;
    let n = w.len() as int;
    assert forall|i: int| 0 <= i < n implies !text::is_white(#[trigger] s[i]) by {
        assert(s[i] == w[i]);
    }
    assert(s[n] == ' ');
    text::lemma_word_len(s, n);
    assert(!text::is_white(s[0]));
    assert(s.subrange(0, n) =~= w);
    let t = s.subrange(n, s.len() as int);
    assert(t[0] == ' ');
    assert(t.subrange(1, t.len() as int) =~= rest);
    assert(text::words(t) == text::words(rest));
    assert(text::words(s) == seq![s.subrange(0, n)] + text::words(t));
}

/// Text without white space is one word.
proof fn lemma_words_single(w: Seq<char>)
    requires
        w.len() > 0,
        forall|i: int| 0 <= i < w.len() ==> !text::is_white(#[trigger] w[i]),
    ensures
        text::words(w) == seq![w],
{
    text::lemma_word_len(w, w.len() as int);
    assert(!text::is_white(w[0]));
    assert(w.subrange(0, w.len() as int) =~= w);
    assert(w.subrange(w.len() as int, w.len() as int) =~= Seq::<char>::empty());
    assert(text::words(Seq::<char>::empty()) =~= Seq::<Seq<char>>::empty());
    assert(text::words(w) =~= seq![w]);
}

/// Text without the separator is one piece.
proof fn lemma_pieces_single(s: Seq<char>, c: char)
    requires
        forall|i: int| 0 <= i < s.len() ==> #[trigger] s[i] != c,
    ensures
        text::pieces(s, c) == seq![s],
{
    text::lemma_first_of(s, c, s.len() as int);
}

/// Bytes of a number, and the number of some bytes, undo each other.
proof fn lemma_number_bytes(bytes: Seq<u8>)
    requires
        bytes.len() <= 16,
    ensures
        number_of(bytes) < pow256(bytes.len()),
        low_bytes_of(number_of(bytes), bytes.len()) == bytes,
    decreases bytes.len(),
{
    if bytes.len() == 0 {
        assert(bytes =~= Seq::<u8>::empty());
    } else {
        let front = bytes.drop_last();
        lemma_number_bytes(front);
        lemma_pow256(bytes.len());
        let x = number_of(front) * 256 + bytes.last() as nat;
        assert(x < pow256(bytes.len()));
        assert(number_of(bytes) == x);
        assert(x / 256 == number_of(front) && x % 256 == bytes.last());
        assert(low_bytes_of(x, bytes.len()) =~= bytes);
    }
}

/// Powers of 256.
spec fn pow256(n: nat) -> nat
    decreases n,
{
    if n == 0 {
        1
    } else {
        256 * pow256((n - 1) as nat)
    }
}

proof fn lemma_pow256(n: nat)
    requires
        n <= 16,
    ensures
        pow256(n) <= u128::MAX as nat + 1,
    decreases 16 - n,
{
    if n == 16 {
        reveal_with_fuel(pow256, 17);
    } else {
        lemma_pow256(n + 1);
    }
}

/// Names of suites hold no white space and name their suites.
proof fn lemma_suite_name(suite: SrtpCipherSuite)
    ensures
        suite.name().len() > 0,
        forall|i: int| 0 <= i < suite.name().len() ==> !text::is_white(#[trigger] suite.name()[i]),
        SrtpCipherSuite::named(suite.name()) == Some(suite),
{
    reveal_strlit("AES_CM_128_HMAC_SHA1_80");
    reveal_strlit("AES_CM_128_HMAC_SHA1_32");
    assert("AES_CM_128_HMAC_SHA1_80"@[21] != "AES_CM_128_HMAC_SHA1_32"@[21]);
}

/// Digits are neither white space nor separators.
proof fn lemma_decimal_plain(x: nat)
    ensures
        text::decimal_text(x).len() > 0,
        forall|i: int|
            0 <= i < text::decimal_text(x).len() ==> !text::is_white(
                #[trigger] text::decimal_text(x)[i],
            ) && text::decimal_text(x)[i] != '|' && text::decimal_text(x)[i] != ':',
{
    text::lemma_decimal_text(x);
    assert forall|i: int| 0 <= i < text::decimal_text(x).len() implies !text::is_white(
        #[trigger] text::decimal_text(x)[i],
    ) && text::decimal_text(x)[i] != '|' && text::decimal_text(x)[i] != ':' by {
        assert(text::is_digit(text::decimal_text(x)[i]));
    }
}

/// An attribute value reads back as the attribute, given that its base64 does.
#[verifier::rlimit(40)]
proof fn lemma_sdp_round_trip(c: CryptoAttribute, b64: Seq<char>)
    requires
        c.mki_consistent(),
        b64 == base64_text(c.master_key@ + c.master_salt@),
        base64_decoded(b64) is Ok && base64_decoded(b64)->Ok_0 == c.master_key@ + c.master_salt@,
        forall|i: int| 0 <= i < b64.len() ==> is_base64_char(#[trigger] b64[i]),
    ensures
        crypto_model(c.sdp_text()) == Ok::<CryptoModel, Seq<char>>(c@),
{
    reveal_strlit("inline:");
    reveal_strlit("|");
    reveal_strlit(":");
    let tag = text::decimal_text(c.tag as nat);
    let name = c.suite.name();
    let key = c.inline_text();
    let inline = b64 + c.mki_text();
    lemma_decimal_plain(c.tag as nat);
    lemma_suite_name(c.suite);
    assert(key =~= "inline:"@ + inline);
    assert(forall|i: int|
        0 <= i < b64.len() ==> !text::is_white(#[trigger] b64[i]) && b64[i] != '|') by {
        assert forall|i: int| 0 <= i < b64.len() implies !text::is_white(#[trigger] b64[i])
            && b64[i] != '|' by {
            assert(is_base64_char(b64[i]));
        }
    }
    let parts = text::pieces(inline, '|');
    match c.mki {
        Some(m) => {
            let value = text::decimal_text(number_of(m@));
            let len = text::decimal_text(m@.len());
            let field = value + ":"@ + len;
            lemma_decimal_plain(number_of(m@));
            lemma_decimal_plain(m@.len());
            assert(c.mki_text() =~= "|"@ + field);
            assert forall|i: int| 0 <= i < field.len() implies #[trigger] field[i] != '|'
                && !text::is_white(field[i]) by {
                if i < value.len() {
                    assert(field[i] == value[i]);
                } else if i > value.len() {
                    assert(field[i] == len[i - value.len() - 1]);
                }
            }
            assert forall|i: int| 0 <= i < inline.len() implies !text::is_white(
                #[trigger] inline[i],
            ) by {
                if i < b64.len() {
                    assert(inline[i] == b64[i]);
                } else if i > b64.len() {
                    assert(inline[i] == field[i - b64.len() - 1]);
                }
            }
            let n = b64.len() as int;
            assert forall|i: int| 0 <= i < n implies #[trigger] inline[i] != '|' by {
                assert(inline[i] == b64[i]);
            }
            assert(inline[n] == '|');
            text::lemma_first_of(inline, '|', n);
            assert(inline.subrange(0, n) =~= b64);
            assert(inline.subrange(n + 1, inline.len() as int) =~= field);
            lemma_pieces_single(field, '|');
            assert(parts =~= seq![b64, field]);
            let k = value.len() as int;
            assert forall|i: int| 0 <= i < k implies #[trigger] field[i] != ':' by {
                assert(field[i] == value[i]);
            }
            assert(field[k] == ':');
            text::lemma_first_of(field, ':', k);
            assert(field.subrange(0, k) =~= value);
            assert(field.subrange(k + 1, field.len() as int) =~= len);
            lemma_number_bytes(m@);
            lemma_pow256(m@.len());
            text::lemma_parse_decimal_text(number_of(m@), u128::MAX as nat);
            text::lemma_parse_decimal_text(m@.len(), usize::MAX as nat);
            assert(mki_field(field) == Some(m@));
            assert(parts.subrange(1, 2) =~= seq![field]);
            assert(seq![field].last() == field);
            assert(last_mki(parts.subrange(1, parts.len() as int)) == Some(m@));
        },
        None => {
            assert(inline =~= b64);
            lemma_pieces_single(b64, '|');
            assert(parts.subrange(1, parts.len() as int) =~= Seq::<Seq<char>>::empty());
        },
    }
    assert forall|i: int| 0 <= i < key.len() implies !text::is_white(#[trigger] key[i]) by {
        if i >= 7 {
            assert(key[i] == inline[i - 7]);
        }
    }
    lemma_words_single(key);
    lemma_words_cons(name, key);
    lemma_words_cons(tag, name + " "@ + key);
    assert(c.sdp_text() =~= tag + " "@ + (name + " "@ + key));
    let w = text::words(c.sdp_text());
    assert(w =~= seq![tag, name, key]);
    text::lemma_parse_decimal_text(c.tag as nat, u32::MAX as nat);
    assert(key.subrange(0, 7) =~= "inline:"@);
    assert(key.subrange(7, key.len() as int) =~= inline);
}

} // verus!
