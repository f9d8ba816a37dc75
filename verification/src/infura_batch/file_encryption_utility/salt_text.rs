//! File encryption with AES-256-GCM under a key that Argon2 derives from a
//! password and a salt kept as B64 text; the salt and nonce are handed back for
//! decryption.
//!
//! Files are read and written outside; their bytes are handed in here.
use vstd::prelude::*;
use vstd::string::StringSliceAdditionalSpecFns;
use crate::aead_crypto::{
    KEY_LEN, NONCE_LEN, PLAINTEXT_MAX, gcm_seal, gcm_open, gcm_encrypt, gcm_decrypt,
    b64_salt_problem, check_b64_salt, argon2_phc_output, argon2_phc_hash, os_random_bytes,
};
use crate::text::{bytes_of, concat_str};

verus! {

/// What an encryption gives: the ciphertext, and the nonce and salt it used.
pub struct EncryptionResult {
    pub ciphertext: Vec<u8>,
    pub nonce: [u8; 12],
    pub salt: String,
}

/// The key that `password` and the B64 salt text `salt` give, or why there is
/// none.
pub open spec fn text_salt_key(password: Seq<u8>, salt: Seq<char>) -> Result<Seq<u8>, Seq<char>> {
    match b64_salt_problem(salt) {
        Some(e) => Err("Invalid salt: "@ + e),
        None => match argon2_phc_output(password, salt) {
            Err(e) => Err("Key derivation failed: "@ + e),
            Ok(None) => Err("Hash generation failed"@),
            Ok(Some(h)) => Ok(h),
        },
    }
}

/// What decrypting `ciphertext` with `password`, `salt` and `nonce` gives.
pub open spec fn text_salt_decryption(password: Seq<u8>, salt: Seq<char>, nonce: Seq<u8>, ciphertext: Seq<u8>) -> Result<
    Seq<u8>,
    Seq<char>,
> {
    match text_salt_key(password, salt) {
        Err(e) => Err(e),
        Ok(k) => match gcm_open(k, nonce, ciphertext) {
            None => Err("Decryption failed: aead::Error"@),
            Some(p) => Ok(p),
        },
    }
}

/// `SaltString::generate` on the operating system's generator, as text; the
/// crate encodes 16 random bytes as B64, which `SaltString::from_b64` accepts.
/// Nothing else is claimed of the text.
#[verifier::external_body]
fn random_b64_salt() -> (s: String)
    ensures
        b64_salt_problem(s@) is None,
{
    argon2::password_hash::SaltString::generate(&mut aes_gcm::aead::OsRng).to_string()
}

/// The key that `password` and the B64 salt text `salt` give.
pub fn derive_key(password: &str, salt: &str) -> (r: Result<Vec<u8>, String>)
    ensures
        match text_salt_key(password.spec_bytes(), salt@) {
            Ok(k) => r matches Ok(x) && x@ == k && k.len() == KEY_LEN,
            Err(e) => r matches Err(m) && m@ == e,
        },
{
    match check_b64_salt(salt) {
        Some(e) => return Err(concat_str("Invalid salt: ", e.as_str())),
        None => {},
    }
    let pw = bytes_of(password);
    match argon2_phc_hash(pw.as_slice(), salt) {
        Err(e) => Err(concat_str("Key derivation failed: ", e.as_str())),
        Ok(None) => Err("Hash generation failed".to_string()),
        Ok(Some(h)) => Ok(h),
    }
}

/// Encrypts `plaintext` under a key derived from `password` and a fresh random
/// salt, with a fresh random nonce. Decrypting the ciphertext with the same
/// password and the salt and nonce handed back gives `plaintext` again.
pub fn encrypt_file(plaintext: &[u8], password: &str) -> (r: Result<EncryptionResult, String>)
    ensures
        r matches Ok(res) ==> (text_salt_decryption(password.spec_bytes(), res.salt@, res.nonce@, res.ciphertext@)
            == Ok::<Seq<u8>, Seq<char>>(plaintext@) && (text_salt_key(password.spec_bytes(), res.salt@) matches Ok(
            k) && res.ciphertext@ == gcm_seal(k, res.nonce@, plaintext@))),
        r matches Err(m) ==> (exists|salt: Seq<char>| text_salt_key(password.spec_bytes(), salt) == Err::<Seq<u8>, Seq<char>>(m@))
            || (plaintext@.len() > PLAINTEXT_MAX && m@ == "Encryption failed: aead::Error"@),
{
    let salt = random_b64_salt();
    let key = match derive_key(password, salt.as_str()) {
        Err(e) => return Err(e),
        Ok(k) => k,
    };
    let n = os_random_bytes(NONCE_LEN);
    let nonce: [u8; 12] = [n[0], n[1], n[2], n[3], n[4], n[5], n[6], n[7], n[8], n[9], n[10], n[11]];
    assert(nonce@ =~= n@);
    match gcm_encrypt(key.as_slice(), n.as_slice(), plaintext) {
        None => Err("Encryption failed: aead::Error".to_string()),
        Some(ciphertext) => Ok(EncryptionResult { ciphertext, nonce, salt }),
    }
}

/// Decrypts `ciphertext` with the key that `password` and `salt` give and
/// `nonce`.
pub fn decrypt_file(ciphertext: &[u8], password: &str, salt: &str, nonce: &[u8; 12]) -> (r: Result<Vec<u8>, String>)
    ensures
        match text_salt_decryption(password.spec_bytes(), salt@, nonce@, ciphertext@) {
            Ok(p) => r matches Ok(x) && x@ == p,
            Err(e) => r matches Err(m) && m@ == e,
        },
{
    let key = match derive_key(password, salt) {
        Err(e) => return Err(e),
        Ok(k) => k,
    };
    match gcm_decrypt(key.as_slice(), nonce.as_slice(), ciphertext) {
        None => Err("Decryption failed: aead::Error".to_string()),
        Some(p) => Ok(p),
    }
}

} // verus!
