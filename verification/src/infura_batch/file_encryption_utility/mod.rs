//! Password-based file encryption with AES-256-GCM: a key derived from the
//! password with Argon2, a random nonce per file, and the nonce written before
//! the ciphertext.
//!
//! Files are read and written outside; their bytes are handed in here.
use vstd::prelude::*;
use vstd::string::StringSliceAdditionalSpecFns;
use crate::aead_crypto::{
    KEY_LEN, NONCE_LEN, PLAINTEXT_MAX, gcm_seal, gcm_open, gcm_encrypt, gcm_decrypt,
    argon2_random_salt_key, os_random_bytes,
};

pub mod salt_text;
pub mod salt_bytes;

verus! {

/// What decrypting the file bytes `data` under `key` gives: the nonce is the first
/// 12 bytes and the ciphertext the rest.
pub open spec fn decryption(key: Seq<u8>, data: Seq<u8>) -> Result<Seq<u8>, Seq<char>> {
    if data.len() < NONCE_LEN {
        Err("Invalid encrypted file format"@)
    } else {
        match gcm_open(key, data.take(NONCE_LEN as int), data.skip(NONCE_LEN as int)) {
            None => Err("aead::Error"@),
            Some(p) => Ok(p),
        }
    }
}

/// Encrypts and decrypts file contents under a key derived from a password.
pub struct FileEncryptor {
    key: Vec<u8>,
}

/// The bytes of `a` followed by those of `b`.
pub fn joined(a: &[u8], b: &[u8]) -> (r: Vec<u8>)
    ensures
        r@ == a@ + b@,
{
    let mut out: Vec<u8> = Vec::new();
    let mut i: usize = 0;
    while i < a.len()
        invariant
            i <= a@.len(),
            out@ == a@.take(i as int),
        decreases a.len() - i,
    {
        out.push(a[i]);
        i += 1;
        assert(out@ =~= a@.take(i as int));
    }
    let mut j: usize = 0;
    while j < b.len()
        invariant
            i == a@.len(),
            j <= b@.len(),
            out@ == a@ + b@.take(j as int),
        decreases b.len() - j,
    {
        out.push(b[j]);
        j += 1;
        assert(out@ =~= a@ + b@.take(j as int));
    }
    assert(a@.take(a@.len() as int) =~= a@);
    assert(b@.take(b@.len() as int) =~= b@);
    out
}

/// The bytes `a[lo..hi]`.
pub fn sub_bytes(a: &[u8], lo: usize, hi: usize) -> (r: Vec<u8>)
    requires
        lo <= hi <= a@.len(),
    ensures
        r@ == a@.subrange(lo as int, hi as int),
{
    let mut out: Vec<u8> = Vec::new();
    let mut i: usize = lo;
    while i < hi
        invariant
            lo <= i <= hi,
            hi <= a@.len(),
            out@ == a@.subrange(lo as int, i as int),
        decreases hi - i,
    {
        out.push(a[i]);
        i += 1;
        assert(out@ =~= a@.subrange(lo as int, i as int));
    }
    out
}

impl FileEncryptor {
    /// The key.
    pub closed spec fn key(&self) -> Seq<u8> {
        self.key@
    }

    /// An encryptor whose key Argon2 derives from `password` with a fresh random
    /// salt; an error when hashing fails (a password longer than `u32::MAX` bytes)
    /// or gives no output.
    pub fn new(password: &str) -> (r: Result<FileEncryptor, String>)
        ensures
            password.spec_bytes().len() <= u32::MAX ==> (r matches Ok(e) && e.key().len() == KEY_LEN),
            password.spec_bytes().len() > u32::MAX ==> (r matches Err(m) && m@ == "invalid password"@),
    {
        let bytes = crate::text::bytes_of(password);
        match argon2_random_salt_key(bytes.as_slice()) {
            Err(m) => Err(m),
            Ok(None) => Err("Hash generation failed".to_string()),
            Ok(Some(k)) => Ok(FileEncryptor { key: k }),
        }
    }

    /// The bytes of the encrypted file for `content`: a fresh random nonce, then
    /// the AES-256-GCM sealing of `content` under the key and that nonce.
    /// Decrypting them gives `content` back.
    pub fn encrypt_file(&self, content: &[u8]) -> (r: Result<Vec<u8>, String>)
        requires
            self.key().len() == KEY_LEN,
        ensures
            content@.len() <= PLAINTEXT_MAX ==> (r matches Ok(c) && exists|nonce: Seq<u8>|
                nonce.len() == NONCE_LEN && c@ == nonce + gcm_seal(self.key(), nonce, content@))
                && (r matches Ok(c) && decryption(self.key(), c@) == Ok::<Seq<u8>, Seq<char>>(content@)),
            content@.len() > PLAINTEXT_MAX ==> (r matches Err(m) && m@ == "aead::Error"@),
    {
        let nonce = os_random_bytes(NONCE_LEN);
        match gcm_encrypt(self.key.as_slice(), nonce.as_slice(), content) {
            None => Err("aead::Error".to_string()),
            Some(ct) => {
                let out = joined(nonce.as_slice(), ct.as_slice());
                assert(out@.take(NONCE_LEN as int) =~= nonce@);
                assert(out@.skip(NONCE_LEN as int) =~= ct@);
                Ok(out)
            },
        }
    }

    /// The plaintext of the encrypted file bytes `data`: an error when they are
    /// shorter than a nonce or do not open under the key.
    pub fn decrypt_file(&self, data: &[u8]) -> (r: Result<Vec<u8>, String>)
        requires
            self.key().len() == KEY_LEN,
        ensures
            match decryption(self.key(), data@) {
                Ok(p) => r matches Ok(x) && x@ == p,
                Err(e) => r matches Err(m) && m@ == e,
            },
    {
        if data.len() < NONCE_LEN {
            return Err("Invalid encrypted file format".to_string());
        }
        let nonce = sub_bytes(data, 0, NONCE_LEN);
        let ct = sub_bytes(data, NONCE_LEN, data.len());
        assert(nonce@ =~= data@.take(NONCE_LEN as int));
        assert(ct@ =~= data@.skip(NONCE_LEN as int));
        match gcm_decrypt(self.key.as_slice(), nonce.as_slice(), ct.as_slice()) {
            None => Err("aead::Error".to_string()),
            Some(p) => Ok(p),
        }
    }
}

/// A key of 32 random bytes from the operating system's generator.
pub fn generate_random_key() -> (k: Vec<u8>)
    ensures
        k@.len() == KEY_LEN,
{
    os_random_bytes(KEY_LEN)
}

} // verus!
