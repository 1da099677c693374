//! AES-256-GCM over byte buffers, with a detached 16-byte tag.

use vstd::prelude::*;
use aes_gcm::aead::AeadInPlace;
use aes_gcm::{Aes256Gcm, KeyInit};

verus! {

/// Key length of AES-256 in bytes.
pub const KEY_LEN: usize = 32;

/// The longest plaintext, and the longest associated data, that AES-GCM
/// takes in one call: 2^36 bytes.
pub const GCM_MAX_INPUT: u64 = 0x10_0000_0000;

/// Lengths of plaintext and associated data that AES-GCM takes.
pub open spec fn within_gcm_limits(plaintext_len: nat, aad_len: nat) -> bool {
    plaintext_len <= GCM_MAX_INPUT && aad_len <= GCM_MAX_INPUT
}

/// What AES-256-GCM encryption of `plaintext` under `key`, `nonce` and
/// `aad` gives: the ciphertext, as long as the plaintext, followed by the
/// 16-byte authentication tag.
pub uninterp spec fn aes256_gcm_seal(
    key: Seq<u8>,
    nonce: Seq<u8>,
    aad: Seq<u8>,
    plaintext: Seq<u8>,
) -> Seq<u8>;

/// What AES-256-GCM decryption of `sealed` (ciphertext followed by tag)
/// under `key`, `nonce` and `aad` gives: the plaintext, or nothing when
/// authentication fails.
pub uninterp spec fn aes256_gcm_open(
    key: Seq<u8>,
    nonce: Seq<u8>,
    aad: Seq<u8>,
    sealed: Seq<u8>,
) -> Option<Seq<u8>>;

/// `AeadInPlace::encrypt_in_place_detached` of `aes_gcm::Aes256Gcm`, keyed
/// with `key`. The call fails exactly when the buffer or the associated
/// data is longer than 2^36 bytes, and then leaves the buffer as it was.
/// Otherwise the buffer holds the ciphertext, of the same length, and the
/// tag is returned; decrypting ciphertext and tag under the same key, nonce
/// and associated data gives the plaintext back.
#[verifier::external_body]
pub(crate) fn seal_detached(
    key: &[u8; KEY_LEN],
    nonce: &[u8; 12],
    aad: &[u8],
    buffer: &mut Vec<u8>,
) -> (tag: Option<[u8; 16]>)
    ensures
        tag is Some <==> within_gcm_limits(old(buffer)@.len(), aad@.len()),
        tag is None ==> final(buffer)@ == old(buffer)@,
        tag matches Some(t) ==> final(buffer)@.len() == old(buffer)@.len(),
        tag matches Some(t) ==> final(buffer)@ + t@ == aes256_gcm_seal(
            key@,
            nonce@,
            aad@,
            old(buffer)@,
        ),
        tag matches Some(t) ==> aes256_gcm_open(key@, nonce@, aad@, final(buffer)@ + t@) == Some(
            old(buffer)@,
        ),
{
    let cipher = Aes256Gcm::new(key.into());
    match cipher.encrypt_in_place_detached(nonce.into(), aad, buffer.as_mut_slice()) {
        Ok(tag) => Some(tag.into()),
        Err(_) => None,
    }
}

/// `AeadInPlace::decrypt_in_place_detached` of `aes_gcm::Aes256Gcm`, keyed
/// with `key`. On success the buffer holds the plaintext, of the same
/// length as the ciphertext; on failure the buffer is left as it was.
#[verifier::external_body]
pub(crate) fn open_detached(
    key: &[u8; KEY_LEN],
    nonce: &[u8; 12],
    aad: &[u8],
    buffer: &mut Vec<u8>,
    tag: &[u8; 16],
) -> (ok: bool)
    ensures
        ok ==> aes256_gcm_open(key@, nonce@, aad@, old(buffer)@ + tag@) == Some(final(buffer)@),
        ok ==> final(buffer)@.len() == old(buffer)@.len(),
        !ok ==> aes256_gcm_open(key@, nonce@, aad@, old(buffer)@ + tag@) is None,
        !ok ==> final(buffer)@ == old(buffer)@,
{
    let cipher = Aes256Gcm::new(key.into());
    cipher.decrypt_in_place_detached(nonce.into(), aad, buffer.as_mut_slice(), tag.into()).is_ok()
}

} // verus!
