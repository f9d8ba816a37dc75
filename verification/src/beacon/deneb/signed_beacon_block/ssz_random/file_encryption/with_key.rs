//! File encryption with AES-256-CBC under a key the caller holds: a random IV is
//! written before the ciphertext.
//!
//! Files are read and written outside; their bytes are handed in here.
use vstd::prelude::*;
use crate::cbc_crypto::{CBC_KEY_LEN, IV_LEN, cbc_seal, cbc_open, cbc_encrypt, cbc_decrypt};
use crate::random::random_bytes;
use crate::infura_batch::file_encryption_utility::{joined, sub_bytes};

verus! {

/// What decrypting the file bytes `data` under `key` gives: the IV is the first
/// 16 bytes and the ciphertext the rest.
pub open spec fn iv_decryption(key: Seq<u8>, data: Seq<u8>) -> Result<Seq<u8>, Seq<char>> {
    if key.len() != CBC_KEY_LEN {
        Err("Key must be 32 bytes"@)
    } else if data.len() < IV_LEN {
        Err("File too short to contain IV"@)
    } else {
        match cbc_open(key, data.take(IV_LEN as int), data.skip(IV_LEN as int)) {
            None => Err("Decryption failed: Unpad Error"@),
            Some(p) => Ok(p),
        }
    }
}

/// The bytes of the encrypted file for `plaintext` under `key`: a fresh random
/// IV, then the AES-256-CBC encryption of `plaintext`. A key that is not 32
/// bytes long is refused. Decrypting the bytes under the same key gives
/// `plaintext` back.
pub fn encrypt_file(plaintext: &[u8], key: &[u8]) -> (r: Result<Vec<u8>, String>)
    ensures
        key@.len() != CBC_KEY_LEN ==> (r matches Err(m) && m@ == "Key must be 32 bytes"@),
        key@.len() == CBC_KEY_LEN ==> (r matches Ok(out) && iv_decryption(key@, out@) == Ok::<Seq<u8>, Seq<char>>(
            plaintext@,
        ) && exists|iv: Seq<u8>| iv.len() == IV_LEN && out@ == iv + cbc_seal(key@, iv, plaintext@)),
{
    if key.len() != CBC_KEY_LEN {
        return Err("Key must be 32 bytes".to_string());
    }
    let iv = random_bytes(IV_LEN);
    let ct = cbc_encrypt(key, iv.as_slice(), plaintext);
    let out = joined(iv.as_slice(), ct.as_slice());
    assert(out@.take(IV_LEN as int) =~= iv@);
    assert(out@.skip(IV_LEN as int) =~= ct@);
    Ok(out)
}

/// The plaintext of the encrypted file bytes `data` under `key`.
pub fn decrypt_file(data: &[u8], key: &[u8]) -> (r: Result<Vec<u8>, String>)
    ensures
        match iv_decryption(key@, data@) {
            Ok(p) => r matches Ok(x) && x@ == p,
            Err(e) => r matches Err(m) && m@ == e,
        },
{
    if key.len() != CBC_KEY_LEN {
        return Err("Key must be 32 bytes".to_string());
    }
    if data.len() < IV_LEN {
        return Err("File too short to contain IV".to_string());
    }
    let iv = sub_bytes(data, 0, IV_LEN);
    let ct = sub_bytes(data, IV_LEN, data.len());
    assert(iv@ =~= data@.take(IV_LEN as int));
    assert(ct@ =~= data@.skip(IV_LEN as int));
    match cbc_decrypt(key, iv.as_slice(), ct.as_slice()) {
        None => Err("Decryption failed: Unpad Error".to_string()),
        Some(p) => Ok(p),
    }
}

/// A key of 32 random bytes.
pub fn generate_key() -> (k: Vec<u8>)
    ensures
        k@.len() == CBC_KEY_LEN,
{
    random_bytes(CBC_KEY_LEN)
}

} // verus!
