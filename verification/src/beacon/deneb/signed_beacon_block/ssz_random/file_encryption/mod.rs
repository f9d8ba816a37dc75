//! File encryption with AES-256-GCM under a fresh random key that is written,
//! with the nonce, before the ciphertext.
//!
//! Files are read and written outside; their bytes are handed in here.
use vstd::prelude::*;
use crate::aead_crypto::{KEY_LEN, PLAINTEXT_MAX, gcm_seal, gcm_open, gcm_encrypt, gcm_decrypt, os_random_bytes};
use crate::infura_batch::file_encryption_utility::{joined, sub_bytes};

pub mod with_key;

verus! {

/// The nonce written into every file.
pub open spec fn file_nonce() -> Seq<u8> {
    seq![117u8, 110, 105, 113, 117, 101, 95, 110, 111, 110, 99, 101]
}

/// What decrypting the file bytes `data` gives: the key is the first 32 bytes,
/// the nonce the next 12 and the ciphertext the rest; a file shorter than 48
/// bytes is refused.
pub open spec fn keyed_decryption(data: Seq<u8>) -> Result<Seq<u8>, Seq<char>> {
    if data.len() < 48 {
        Err("Invalid encrypted file format"@)
    } else {
        match gcm_open(data.take(32), data.subrange(32, 44), data.skip(44)) {
            None => Err("Decryption failed: aead::Error"@),
            Some(p) => Ok(p),
        }
    }
}

/// The bytes of the encrypted file for `data`: a fresh random key, the nonce
/// `unique_nonce`, then the AES-256-GCM sealing of `data`. Decrypting them gives
/// `data` back.
pub fn encrypt_file(data: &[u8]) -> (r: Result<Vec<u8>, String>)
    ensures
        data@.len() <= PLAINTEXT_MAX ==> (r matches Ok(out) && keyed_decryption(out@) == Ok::<Seq<u8>, Seq<char>>(
            data@,
        ) && exists|key: Seq<u8>|
            key.len() == KEY_LEN && out@ == key + file_nonce() + gcm_seal(key, file_nonce(), data@)),
        data@.len() > PLAINTEXT_MAX ==> (r matches Err(m) && m@ == "Encryption failed: aead::Error"@),
{
    let key = os_random_bytes(KEY_LEN);
    let nonce: Vec<u8> = vec![117u8, 110, 105, 113, 117, 101, 95, 110, 111, 110, 99, 101];
    assert(nonce@ =~= file_nonce());
    match gcm_encrypt(key.as_slice(), nonce.as_slice(), data) {
        None => Err("Encryption failed: aead::Error".to_string()),
        Some(ct) => {
            let head = joined(key.as_slice(), nonce.as_slice());
            let out = joined(head.as_slice(), ct.as_slice());
            assert(out@.take(32) =~= key@);
            assert(out@.subrange(32, 44) =~= nonce@);
            assert(out@.skip(44) =~= ct@);
            Ok(out)
        },
    }
}

/// The plaintext of the encrypted file bytes `encrypted`.
pub fn decrypt_file(encrypted: &[u8]) -> (r: Result<Vec<u8>, String>)
    ensures
        match keyed_decryption(encrypted@) {
            Ok(p) => r matches Ok(x) && x@ == p,
            Err(e) => r matches Err(m) && m@ == e,
        },
{
    if encrypted.len() < 48 {
        return Err("Invalid encrypted file format".to_string());
    }
    let key = sub_bytes(encrypted, 0, 32);
    let nonce = sub_bytes(encrypted, 32, 44);
    let ct = sub_bytes(encrypted, 44, encrypted.len());
    assert(key@ =~= encrypted@.take(32));
    assert(ct@ =~= encrypted@.skip(44));
    match gcm_decrypt(key.as_slice(), nonce.as_slice(), ct.as_slice()) {
        None => Err("Decryption failed: aead::Error".to_string()),
        Some(p) => Ok(p),
    }
}

} // verus!
