//! AES-256-GCM with 12-byte nonces and without associated data.

use aes_gcm::aead::Aead;
use aes_gcm::{AeadInOut, Aes256Gcm, KeyInit};
use vstd::prelude::*;

verus! {

/// Length of a key.
pub const KEY_LEN: usize = 32;

/// Length of a nonce.
pub const NONCE_LEN: usize = 12;

/// Length of the tag behind the ciphertext.
pub const TAG_LEN: usize = 16;

/// The longest plaintext, in bytes.
pub const MAX_PLAINTEXT: u64 = 68_719_476_704;

/// The ciphertext and tag that AES-256-GCM makes of a plaintext.
pub uninterp spec fn sealed(key: Seq<u8>, nonce: Seq<u8>, plaintext: Seq<u8>) -> Seq<u8>;

/// The plaintext of a ciphertext and tag, if the tag is right.
pub uninterp spec fn opened(key: Seq<u8>, nonce: Seq<u8>, ciphertext: Seq<u8>) -> Option<Seq<u8>>;

/// The error of the `aead` crate.
#[verifier::external_type_specification]
#[verifier::external_body]
pub struct ExAeadError(aes_gcm::Error);

/// `AeadInOut::encrypt_in_place` of `aes_gcm::Aes256Gcm` with no associated data:
/// fails only on a plaintext over the limit; otherwise the result is a function of
/// key, nonce and plaintext, is longer than the plaintext by the tag, and opens to
/// the plaintext under the same key and nonce. It panics where the result would
/// outgrow an allocation.
#[verifier::external_body]
pub(crate) fn encrypt_in_place(
    key: &[u8; KEY_LEN],
    nonce: &[u8; NONCE_LEN],
    plaintext: Vec<u8>,
) -> (result: Result<Vec<u8>, aes_gcm::Error>)
    requires
        plaintext@.len() <= MAX_PLAINTEXT ==> plaintext@.len() + TAG_LEN <= isize::MAX,
    ensures
        match result {
            Ok(ciphertext) => {
                &&& plaintext@.len() <= MAX_PLAINTEXT
                &&& ciphertext@ == sealed(key@, nonce@, plaintext@)
                &&& ciphertext@.len() == plaintext@.len() + TAG_LEN
                &&& opened(key@, nonce@, ciphertext@) == Some(plaintext@)
            },
            Err(_) => plaintext@.len() > MAX_PLAINTEXT,
        },
{
    let mut buffer = plaintext;
    let cipher = Aes256Gcm::new(&(*key).into());
    cipher.encrypt_in_place(&(*nonce).into(), b"", &mut buffer)?;
    Ok(buffer)
}

/// `Aead::decrypt` of `aes_gcm::Aes256Gcm` with no associated data: whether it
/// succeeds and what it returns is a function of key, nonce and ciphertext. A
/// plaintext is shorter than its ciphertext by the tag.
#[verifier::external_body]
pub(crate) fn decrypt(
    key: &[u8; KEY_LEN],
    nonce: &[u8; NONCE_LEN],
    ciphertext: &[u8],
) -> (result: Result<Vec<u8>, aes_gcm::Error>)
    ensures
        match result {
            Ok(plaintext) => {
                &&& opened(key@, nonce@, ciphertext@) == Some(plaintext@)
                &&& ciphertext@.len() == plaintext@.len() + TAG_LEN
            },
            Err(_) => opened(key@, nonce@, ciphertext@) is None,
        },
{
    let cipher = Aes256Gcm::new(&(*key).into());
    cipher.decrypt(&(*nonce).into(), ciphertext)
}

} // verus!
