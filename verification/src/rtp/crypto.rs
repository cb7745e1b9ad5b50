//! The cipher and the message authentication code under SRTP.

use aes::cipher::{BlockEncrypt, KeyInit};
use aes::Aes128;
use hmac::{Hmac, Mac};
use sha1::Sha1;
use vstd::prelude::*;

verus! {

/// The block that AES-128 turns `block` into under `key`.
pub uninterp spec fn aes128_block(key: Seq<u8>, block: Seq<u8>) -> [u8; 16];

/// The HMAC-SHA1 tag of `data` under `key`.
pub uninterp spec fn hmac_sha1_tag(key: Seq<u8>, data: Seq<u8>) -> [u8; 20];

/// Runs `aes::Aes128` (`KeyInit::new`, then `BlockEncrypt::encrypt_block`) on
/// one block. The result is a function of the key and the block, which
/// `aes128_block` names.
#[verifier::external_body]
pub(crate) fn aes128_encrypt(key: &[u8; 16], block: [u8; 16]) -> (out: [u8; 16])
    ensures
        out == aes128_block(key@, block@),
{
    let mut out = block;
    Aes128::new(key.into()).encrypt_block((&mut out).into());
    out
}

/// Runs `hmac::Hmac<sha1::Sha1>` over `data`. The full tag of twenty bytes is a
/// function of the key and the data, which `hmac_sha1_tag` names. Keys of every
/// length are accepted.
#[verifier::external_body]
pub(crate) fn hmac_sha1(key: &[u8; 20], data: &[u8]) -> (tag: [u8; 20])
    ensures
        tag == hmac_sha1_tag(key@, data@),
{
    let mut mac = <Hmac<Sha1> as Mac>::new_from_slice(key).expect("HMAC key size");
    mac.update(data);
    mac.finalize().into_bytes().into()
}

} // verus!
