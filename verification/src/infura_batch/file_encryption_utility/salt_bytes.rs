//! File encryption with AES-256-GCM under a key that Argon2 derives from a
//! password and a random 16-byte salt; the salt and nonce are handed back for
//! decryption. Also Argon2 password hashes in PHC form and their checking.
//!
//! Files are read and written outside; their bytes are handed in here.
use vstd::prelude::*;
use vstd::string::StringSliceAdditionalSpecFns;
use crate::aead_crypto::{
    KEY_LEN, NONCE_LEN, PLAINTEXT_MAX, gcm_seal, gcm_open, gcm_encrypt, gcm_decrypt,
    argon2_raw_key, argon2_hash_into, argon2_phc_string, argon2_check, argon2_verify, os_random_bytes,
};
use crate::text::bytes_of;

verus! {

/// The length of a salt in bytes.
pub const SALT_SIZE: usize = 16;

/// What an encryption gives: the ciphertext, and the nonce and salt it used.
pub struct EncryptionResult {
    pub ciphertext: Vec<u8>,
    pub nonce: [u8; 12],
    pub salt: [u8; 16],
}

/// What decrypting `ciphertext` with `password`, a 16-byte `salt` and `nonce`
/// gives.
pub open spec fn salt_bytes_decryption(password: Seq<u8>, salt: Seq<u8>, nonce: Seq<u8>, ciphertext: Seq<u8>) -> Option<Seq<u8>> {
    gcm_open(argon2_raw_key(password, salt), nonce, ciphertext)
}

/// The key that `password` and `salt` give; an error when Argon2 refuses them.
pub fn derive_key(password: &str, salt: &[u8]) -> (r: Result<Vec<u8>, String>)
    ensures
        match r {
            Ok(k) => password.spec_bytes().len() <= u32::MAX && 8 <= salt@.len() <= u32::MAX && k@ == argon2_raw_key(
                password.spec_bytes(),
                salt@,
            ) && k@.len() == KEY_LEN,
            Err(m) => !(password.spec_bytes().len() <= u32::MAX && 8 <= salt@.len() <= u32::MAX)
                && m@ == crate::aead_crypto::argon2_input_problem(password.spec_bytes().len(), salt@.len()),
        },
{
    let pw = bytes_of(password);
    argon2_hash_into(pw.as_slice(), salt)
}

/// Encrypts `content` under a key derived from `password` and a fresh random
/// 16-byte salt, with a fresh random nonce. Decrypting the ciphertext with the
/// same password and the salt and nonce handed back gives `content` again.
pub fn encrypt_file(content: &[u8], password: &str) -> (r: Result<EncryptionResult, String>)
    ensures
        password.spec_bytes().len() <= u32::MAX && content@.len() <= PLAINTEXT_MAX ==> (r matches Ok(res)
            && res.ciphertext@ == gcm_seal(argon2_raw_key(password.spec_bytes(), res.salt@), res.nonce@, content@)
            && salt_bytes_decryption(password.spec_bytes(), res.salt@, res.nonce@, res.ciphertext@) == Some(content@)),
        password.spec_bytes().len() > u32::MAX ==> (r matches Err(m) && m@ == "password is too long"@),
        password.spec_bytes().len() <= u32::MAX && content@.len() > PLAINTEXT_MAX ==> (r matches Err(m) && m@
            == "aead::Error"@),
{
    let s = os_random_bytes(SALT_SIZE);
    let salt: [u8; 16] = [s[0], s[1], s[2], s[3], s[4], s[5], s[6], s[7], s[8], s[9], s[10], s[11], s[12], s[13], s[14], s[15]];
    assert(salt@ =~= s@);
    let key = match derive_key(password, salt.as_slice()) {
        Err(e) => return Err(e),
        Ok(k) => k,
    };
    let n = os_random_bytes(NONCE_LEN);
    let nonce: [u8; 12] = [n[0], n[1], n[2], n[3], n[4], n[5], n[6], n[7], n[8], n[9], n[10], n[11]];
    assert(nonce@ =~= n@);
    match gcm_encrypt(key.as_slice(), n.as_slice(), content) {
        None => Err("aead::Error".to_string()),
        Some(ciphertext) => Ok(EncryptionResult { ciphertext, nonce, salt }),
    }
}

/// Decrypts `ciphertext` with the key that `password` and `salt` give and
/// `nonce`: the plaintext, or an error when Argon2 refuses the password or the
/// ciphertext does not open.
pub fn decrypt_file(ciphertext: &[u8], password: &str, salt: &[u8; 16], nonce: &[u8; 12]) -> (r: Result<Vec<u8>, String>)
    ensures
        password.spec_bytes().len() > u32::MAX ==> (r matches Err(m) && m@ == "password is too long"@),
        password.spec_bytes().len() <= u32::MAX ==> match salt_bytes_decryption(password.spec_bytes(), salt@, nonce@, ciphertext@) {
            Some(p) => r matches Ok(x) && x@ == p,
            None => r matches Err(m) && m@ == "aead::Error"@,
        },
{
    let key = match derive_key(password, salt.as_slice()) {
        Err(e) => return Err(e),
        Ok(k) => k,
    };
    match gcm_decrypt(key.as_slice(), nonce.as_slice(), ciphertext) {
        None => Err("aead::Error".to_string()),
        Some(p) => Ok(p),
    }
}

/// An Argon2 hash of `password` with a fresh random salt, in PHC form:
/// `verify_password` of the same password against it answers `true`. A password
/// longer than `u32::MAX` bytes is refused.
pub fn generate_password_hash(password: &str) -> (r: Result<String, String>)
    ensures
        password.spec_bytes().len() <= u32::MAX ==> (r matches Ok(h)
            && argon2_check(password.spec_bytes(), h@) == Ok::<bool, Seq<char>>(true)),
        password.spec_bytes().len() > u32::MAX ==> (r matches Err(m) && m@ == "invalid password"@),
{
    let pw = bytes_of(password);
    argon2_phc_string(pw.as_slice())
}

/// Whether `password` matches the PHC hash `hash`; an error when `hash` cannot be
/// read.
pub fn verify_password(password: &str, hash: &str) -> (r: Result<bool, String>)
    ensures
        match argon2_check(password.spec_bytes(), hash@) {
            Ok(b) => r == Ok::<bool, String>(b),
            Err(e) => r matches Err(m) && m@ == e,
        },
{
    let pw = bytes_of(password);
    argon2_verify(pw.as_slice(), hash)
}

} // verus!
