//! AES-256 in CBC mode with PKCS#7 padding, as the `cbc` and `aes` crates provide
//! it, and PBKDF2-HMAC-SHA256 key stretching from the `pbkdf2` crate.
use vstd::prelude::*;
use aes::cipher::{block_padding::Pkcs7, BlockDecryptMut, BlockEncryptMut, KeyIvInit};

verus! {

/// The length of an AES-256 key in bytes.
pub const CBC_KEY_LEN: usize = 32;

/// The length of an initialization vector, one AES block, in bytes.
pub const IV_LEN: usize = 16;

/// What AES-256-CBC encryption of `plaintext`, padded with PKCS#7, under `key`
/// and `iv` gives.
pub uninterp spec fn cbc_seal(key: Seq<u8>, iv: Seq<u8>, plaintext: Seq<u8>) -> Seq<u8>;

/// What AES-256-CBC decryption of `ciphertext` under `key` and `iv`, with the
/// PKCS#7 padding removed, gives: `None` when the padding is not valid.
pub uninterp spec fn cbc_open(key: Seq<u8>, iv: Seq<u8>, ciphertext: Seq<u8>) -> Option<Seq<u8>>;

/// `cbc::Encryptor<Aes256>::encrypt_padded_vec_mut::<Pkcs7>`: the plaintext padded
/// to whole blocks and encrypted; it cannot fail. Decryption under the same key
/// and IV undoes it. What the bytes are is named, not stated.
#[verifier::external_body]
pub(crate) fn cbc_encrypt(key: &[u8], iv: &[u8], plaintext: &[u8]) -> (c: Vec<u8>)
    requires
        key@.len() == CBC_KEY_LEN,
        iv@.len() == IV_LEN,
    ensures
        c@ == cbc_seal(key@, iv@, plaintext@),
        cbc_open(key@, iv@, c@) == Some(plaintext@),
{
    cbc::Encryptor::<aes::Aes256>::new(key.into(), iv.into()).encrypt_padded_vec_mut::<Pkcs7>(plaintext)
}

/// `cbc::Decryptor<Aes256>::decrypt_padded_vec_mut::<Pkcs7>`: the plaintext, or
/// `None` when the padding is not valid (the crate's `UnpadError`).
#[verifier::external_body]
pub(crate) fn cbc_decrypt(key: &[u8], iv: &[u8], ciphertext: &[u8]) -> (r: Option<Vec<u8>>)
    requires
        key@.len() == CBC_KEY_LEN,
        iv@.len() == IV_LEN,
    ensures
        match cbc_open(key@, iv@, ciphertext@) {
            None => r is None,
            Some(p) => r matches Some(x) && x@ == p,
        },
{
    cbc::Decryptor::<aes::Aes256>::new(key.into(), iv.into()).decrypt_padded_vec_mut::<Pkcs7>(ciphertext).ok()
}

/// What PBKDF2-HMAC-SHA256 with `rounds` rounds gives in 32 bytes for `password`
/// and `salt`.
pub uninterp spec fn pbkdf2_sha256(password: Seq<u8>, salt: Seq<u8>, rounds: u32) -> Seq<u8>;

/// `pbkdf2::pbkdf2_hmac::<Sha256>` into a 32-byte key.
#[verifier::external_body]
pub(crate) fn pbkdf2_key(password: &[u8], salt: &[u8], rounds: u32) -> (k: Vec<u8>)
    ensures
        k@ == pbkdf2_sha256(password@, salt@, rounds),
        k@.len() == CBC_KEY_LEN,
{
    let mut key = vec![0u8; 32];
    pbkdf2::pbkdf2_hmac::<sha2::Sha256>(password, salt, rounds, &mut key);
    key
}

} // verus!
