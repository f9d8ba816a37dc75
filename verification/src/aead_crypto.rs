//! AES-256-GCM sealing and opening, Argon2 key derivation and random bytes, as
//! the `aes-gcm`, `argon2` and `rand_core` crates provide them.
use vstd::prelude::*;
use aes_gcm::aead::{Aead, KeyInit};
use aes_gcm::aead::rand_core::RngCore;
use argon2::password_hash::{PasswordHasher, PasswordVerifier};

verus! {

/// The length of an AES-256 key in bytes.
pub const KEY_LEN: usize = 32;

/// The length of an AES-GCM nonce in bytes.
pub const NONCE_LEN: usize = 12;

/// The length of the authentication tag that sealing appends.
pub const TAG_LEN: usize = 16;

/// The longest plaintext that AES-GCM seals: 2^36 bytes.
pub const PLAINTEXT_MAX: u64 = 68719476736;

/// What AES-256-GCM sealing of `plaintext` under `key` and `nonce` gives.
pub uninterp spec fn gcm_seal(key: Seq<u8>, nonce: Seq<u8>, plaintext: Seq<u8>) -> Seq<u8>;

/// What AES-256-GCM opening of `ciphertext` under `key` and `nonce` gives: the
/// plaintext, or `None` when the tag does not check.
pub uninterp spec fn gcm_open(key: Seq<u8>, nonce: Seq<u8>, ciphertext: Seq<u8>) -> Option<Seq<u8>>;

/// `Aead::encrypt` of `Aes256Gcm` with an empty associated text. The crate refuses
/// plaintexts longer than 2^36 bytes and seals every other one into the
/// plaintext followed by a 16-byte tag; as an AEAD, opening the result under the
/// same key and nonce gives the plaintext back. What the ciphertext bytes are is
/// named, not stated.
#[verifier::external_body]
pub(crate) fn gcm_encrypt(key: &[u8], nonce: &[u8], plaintext: &[u8]) -> (r: Option<Vec<u8>>)
    requires
        key@.len() == KEY_LEN,
        nonce@.len() == NONCE_LEN,
    ensures
        r is Some <==> plaintext@.len() <= PLAINTEXT_MAX,
        r matches Some(c) ==> c@ == gcm_seal(key@, nonce@, plaintext@) && c@.len() == plaintext@.len()
            + TAG_LEN && gcm_open(key@, nonce@, c@) == Some(plaintext@),
{
    let cipher = aes_gcm::Aes256Gcm::new(aes_gcm::Key::<aes_gcm::Aes256Gcm>::from_slice(key));
    cipher.encrypt(aes_gcm::Nonce::from_slice(nonce), plaintext).ok()
}

/// `Aead::decrypt` of `Aes256Gcm` with an empty associated text: the plaintext,
/// or `None` when the tag does not check.
#[verifier::external_body]
pub(crate) fn gcm_decrypt(key: &[u8], nonce: &[u8], ciphertext: &[u8]) -> (r: Option<Vec<u8>>)
    requires
        key@.len() == KEY_LEN,
        nonce@.len() == NONCE_LEN,
    ensures
        match gcm_open(key@, nonce@, ciphertext@) {
            None => r is None,
            Some(p) => r matches Some(x) && x@ == p,
        },
{
    let cipher = aes_gcm::Aes256Gcm::new(aes_gcm::Key::<aes_gcm::Aes256Gcm>::from_slice(key));
    cipher.decrypt(aes_gcm::Nonce::from_slice(nonce), ciphertext).ok()
}

/// What `Argon2::hash_password_into` with the default parameters writes into 32
/// bytes for `password` and `salt`.
pub uninterp spec fn argon2_raw_key(password: Seq<u8>, salt: Seq<u8>) -> Seq<u8>;

/// The text of the error that Argon2 reports for a password and a salt of these
/// lengths: the password is checked first.
pub open spec fn argon2_input_problem(password_len: nat, salt_len: nat) -> Seq<char> {
    if password_len > u32::MAX {
        "password is too long"@
    } else if salt_len < 8 {
        "salt is too short"@
    } else {
        "salt is too long"@
    }
}

/// `Argon2::default().hash_password_into` into a 32-byte key. Its source refuses
/// a password longer than `u32::MAX` bytes ("password is too long"), then a salt
/// shorter than 8 bytes ("salt is too short") or longer than `u32::MAX` bytes
/// ("salt is too long"), and otherwise fills the key; the error is given by its
/// `Display` text.
#[verifier::external_body]
pub(crate) fn argon2_hash_into(password: &[u8], salt: &[u8]) -> (r: Result<Vec<u8>, String>)
    ensures
        match r {
            Ok(k) => password@.len() <= u32::MAX && 8 <= salt@.len() <= u32::MAX && k@ == argon2_raw_key(password@, salt@) && k@.len() == KEY_LEN,
            Err(m) => !(password@.len() <= u32::MAX && 8 <= salt@.len() <= u32::MAX) && m@ == argon2_input_problem(password@.len(), salt@.len()),
        },
{
    let mut key = vec![0u8; 32];
    match argon2::Argon2::default().hash_password_into(password, salt, &mut key) {
        Ok(()) => Ok(key),
        Err(e) => Err(e.to_string()),
    }
}

/// A character that a B64 salt string may hold: `[a-zA-Z0-9/+.-]`.
pub open spec fn b64_salt_char(c: char) -> bool {
    ('a' <= c && c <= 'z') || ('A' <= c && c <= 'Z') || ('0' <= c && c <= '9') || c == '/' || c == '+' || c == '.'
        || c == '-'
}

/// The position of the first character of `salt` that a B64 salt may not hold.
pub open spec fn first_bad_salt_char(salt: Seq<char>) -> int {
    choose|i: int| 0 <= i < salt.len() && !b64_salt_char(salt[i]) && forall|j: int| 0 <= j < i ==> b64_salt_char(salt[j])
}

/// What checking `salt` as a B64 salt string (`SaltString::from_b64`) reports:
/// `None` when it is one, else the error's text. Its UTF-8 form must be 4 to 64
/// bytes long, and each character one of `[a-zA-Z0-9/+.-]`.
pub open spec fn b64_salt_problem(salt: Seq<char>) -> Option<Seq<char>> {
    let n = vstd::utf8::encode_utf8(salt).len();
    if n < 4 {
        Some("salt invalid: value to short"@)
    } else if n > 64 {
        Some("salt invalid: value to long"@)
    } else if exists|i: int| 0 <= i < salt.len() && !b64_salt_char(salt[i]) {
        Some("salt invalid: contains invalid character: '"@ + seq![salt[first_bad_salt_char(salt)]] + "'"@)
    } else {
        None
    }
}

/// `SaltString::from_b64`: `None` when `salt` is a valid B64 salt string, else
/// the `Display` text of the error, as `b64_salt_problem` says (the crate checks
/// the byte length, then the characters in order; the `Value` check it makes
/// afterwards allows the same characters and lengths).
#[verifier::external_body]
pub(crate) fn check_b64_salt(salt: &str) -> (r: Option<String>)
    ensures
        match b64_salt_problem(salt@) {
            None => r is None,
            Some(m) => r matches Some(x) && x@ == m,
        },
{
    match argon2::password_hash::SaltString::from_b64(salt) {
        Ok(_) => None,
        Err(e) => Some(e.to_string()),
    }
}

/// What `Argon2::default().hash_password` gives for `password` and the B64 salt
/// string `salt`: the hash output bytes (if the hash has them), or the error's
/// text.
pub uninterp spec fn argon2_phc_output(password: Seq<u8>, salt: Seq<char>) -> Result<Option<Seq<u8>>, Seq<char>>;

/// `Argon2::default().hash_password` with the B64 salt string `salt` (which must
/// be valid: the conversion would panic otherwise): the bytes of the hash output,
/// which the default parameters make 32 long, or the `Display` text of the error.
#[verifier::external_body]
pub(crate) fn argon2_phc_hash(password: &[u8], salt: &str) -> (r: Result<Option<Vec<u8>>, String>)
    requires
        b64_salt_problem(salt@) is None,
    ensures
        match argon2_phc_output(password@, salt@) {
            Ok(None) => r matches Ok(None),
            Ok(Some(h)) => r matches Ok(Some(x)) && x@ == h && h.len() == KEY_LEN,
            Err(m) => r matches Err(x) && x@ == m,
        },
{
    let s = argon2::password_hash::SaltString::from_b64(salt).unwrap();
    match argon2::Argon2::default().hash_password(password, &s) {
        Ok(h) => Ok(h.hash.map(|o| o.as_bytes().to_vec())),
        Err(e) => Err(e.to_string()),
    }
}

/// `Argon2::default().hash_password` with a fresh salt from `SaltString::generate`
/// on the operating system's generator. The generated salt is 16 bytes, which the
/// source accepts, so the one failure left is a password longer than `u32::MAX`
/// bytes, reported as `password_hash::Error::Password` ("invalid password");
/// otherwise the hash output is present and the default parameters make it 32
/// bytes long. The salt is random, so nothing is claimed of the bytes' values.
#[verifier::external_body]
pub(crate) fn argon2_random_salt_key(password: &[u8]) -> (r: Result<Option<Vec<u8>>, String>)
    ensures
        match r {
            Ok(Some(h)) => password@.len() <= u32::MAX && h@.len() == KEY_LEN,
            Ok(None) => false,
            Err(m) => password@.len() > u32::MAX && m@ == "invalid password"@,
        },
{
    let s = argon2::password_hash::SaltString::generate(&mut aes_gcm::aead::OsRng);
    match argon2::Argon2::default().hash_password(password, &s) {
        Ok(h) => Ok(h.hash.map(|o| o.as_bytes().to_vec())),
        Err(e) => Err(e.to_string()),
    }
}

/// `Argon2::default().hash_password` with a fresh salt from `SaltString::generate`
/// on the operating system's generator, written as a PHC string, or the error's
/// text. The generated 16-byte salt is accepted, so it fails only for a password
/// longer than `u32::MAX` bytes ("invalid password"). Checking the same password
/// against the string it gives (`argon2_check`, that is `PasswordHash::new` then
/// `verify_password`) recomputes the hash with the salt and parameters written in
/// it and finds it equal. The salt is random, so the text itself is not stated.
#[verifier::external_body]
pub(crate) fn argon2_phc_string(password: &[u8]) -> (r: Result<String, String>)
    ensures
        match r {
            Ok(s) => password@.len() <= u32::MAX && argon2_check(password@, s@) == Ok::<bool, Seq<char>>(true),
            Err(m) => password@.len() > u32::MAX && m@ == "invalid password"@,
        },
{
    let s = argon2::password_hash::SaltString::generate(&mut aes_gcm::aead::OsRng);
    match argon2::Argon2::default().hash_password(password, &s) {
        Ok(h) => Ok(h.to_string()),
        Err(e) => Err(e.to_string()),
    }
}

/// What checking `password` against the PHC string `hash` gives: whether it
/// matches, or the error's text when `hash` cannot be read.
pub uninterp spec fn argon2_check(password: Seq<u8>, hash: Seq<char>) -> Result<bool, Seq<char>>;

/// `PasswordHash::new(hash)` then `Argon2::default().verify_password`: whether
/// `password` matches, or the `Display` text of the error when `hash` cannot be
/// read as a PHC string.
#[verifier::external_body]
pub(crate) fn argon2_verify(password: &[u8], hash: &str) -> (r: Result<bool, String>)
    ensures
        match argon2_check(password@, hash@) {
            Ok(b) => r == Ok::<bool, String>(b),
            Err(m) => r matches Err(x) && x@ == m,
        },
{
    match argon2::password_hash::PasswordHash::new(hash) {
        Ok(p) => Ok(argon2::Argon2::default().verify_password(password, &p).is_ok()),
        Err(e) => Err(e.to_string()),
    }
}

/// `n` bytes filled by `RngCore::fill_bytes` from the operating system's
/// generator (`OsRng`); nothing is claimed of their values.
#[verifier::external_body]
pub(crate) fn os_random_bytes(n: usize) -> (b: Vec<u8>)
    ensures
        b@.len() == n,
{
    let mut b = vec![0u8; n];
    aes_gcm::aead::OsRng.fill_bytes(&mut b);
    b
}

} // verus!
