//! Password-based file encryption with AES-256-CBC: a key stretched from the
//! password and a random salt with PBKDF2-HMAC-SHA256, a random IV, and the salt
//! and IV written before the ciphertext.
//!
//! Files are read and written outside; their bytes are handed in here.
use vstd::prelude::*;
use vstd::string::StringSliceAdditionalSpecFns;
use crate::cbc_crypto::{CBC_KEY_LEN, IV_LEN, cbc_seal, cbc_open, cbc_encrypt, cbc_decrypt, pbkdf2_sha256, pbkdf2_key};
use crate::random::random_bytes;
use crate::text::bytes_of;
use crate::infura_batch::file_encryption_utility::{joined, sub_bytes};

verus! {

/// The length of the salt in bytes.
pub const SALT_LEN: usize = 16;

/// The rounds of PBKDF2.
pub const KEY_ITERATIONS: u32 = 100000;

/// What decrypting the file bytes `data` with `password` gives: the salt is the
/// first 16 bytes, the IV the next 16, and the ciphertext the rest.
pub open spec fn cbc_file_decryption(password: Seq<u8>, data: Seq<u8>) -> Result<Seq<u8>, Seq<char>> {
    if data.len() < SALT_LEN + IV_LEN {
        Err("Invalid encrypted file format"@)
    } else {
        let salt = data.take(SALT_LEN as int);
        let iv = data.subrange(SALT_LEN as int, (SALT_LEN + IV_LEN) as int);
        let key = pbkdf2_sha256(password, salt, KEY_ITERATIONS);
        match cbc_open(key, iv, data.skip((SALT_LEN + IV_LEN) as int)) {
            None => Err("Unpad Error"@),
            Some(p) => Ok(p),
        }
    }
}

/// Encrypts and decrypts file contents with a password.
pub struct FileEncryptor {
    password: String,
}

impl FileEncryptor {
    /// The password's bytes.
    pub closed spec fn password_bytes(&self) -> Seq<u8> {
        vstd::utf8::encode_utf8(self.password@)
    }

    /// An encryptor for `password`.
    pub fn new(password: String) -> (e: FileEncryptor)
        ensures
            e.password_bytes() == vstd::utf8::encode_utf8(password@),
    {
        FileEncryptor { password }
    }

    /// The key that the password and `salt` give.
    fn derive_key(&self, salt: &[u8]) -> (k: Vec<u8>)
        ensures
            k@ == pbkdf2_sha256(self.password_bytes(), salt@, KEY_ITERATIONS),
            k@.len() == CBC_KEY_LEN,
    {
        let pw = bytes_of(self.password.as_str());
        pbkdf2_key(pw.as_slice(), salt, KEY_ITERATIONS)
    }

    /// The bytes of the encrypted file for `plaintext`: a fresh random salt and
    /// IV, then the AES-256-CBC encryption of `plaintext` under the key that the
    /// password and salt give. Decrypting them gives `plaintext` back.
    pub fn encrypt_file(&self, plaintext: &[u8]) -> (r: Vec<u8>)
        ensures
            cbc_file_decryption(self.password_bytes(), r@) == Ok::<Seq<u8>, Seq<char>>(plaintext@),
            exists|salt: Seq<u8>, iv: Seq<u8>|
                salt.len() == SALT_LEN && iv.len() == IV_LEN && r@ == salt + iv + cbc_seal(
                    pbkdf2_sha256(self.password_bytes(), salt, KEY_ITERATIONS),
                    iv,
                    plaintext@,
                ),
    {
        let salt = random_bytes(SALT_LEN);
        let iv = random_bytes(IV_LEN);
        let key = self.derive_key(salt.as_slice());
        let ciphertext = cbc_encrypt(key.as_slice(), iv.as_slice(), plaintext);
        let head = joined(salt.as_slice(), iv.as_slice());
        let out = joined(head.as_slice(), ciphertext.as_slice());
        assert(out@.take(SALT_LEN as int) =~= salt@);
        assert(out@.subrange(SALT_LEN as int, (SALT_LEN + IV_LEN) as int) =~= iv@);
        assert(out@.skip((SALT_LEN + IV_LEN) as int) =~= ciphertext@);
        out
    }

    /// The plaintext of the encrypted file bytes `data`.
    pub fn decrypt_file(&self, data: &[u8]) -> (r: Result<Vec<u8>, String>)
        ensures
            match cbc_file_decryption(self.password_bytes(), data@) {
                Ok(p) => r matches Ok(x) && x@ == p,
                Err(e) => r matches Err(m) && m@ == e,
            },
    {
        if data.len() < SALT_LEN + IV_LEN {
            return Err("Invalid encrypted file format".to_string());
        }
        let salt = sub_bytes(data, 0, SALT_LEN);
        let iv = sub_bytes(data, SALT_LEN, SALT_LEN + IV_LEN);
        let ciphertext = sub_bytes(data, SALT_LEN + IV_LEN, data.len());
        assert(salt@ =~= data@.take(SALT_LEN as int));
        assert(ciphertext@ =~= data@.skip((SALT_LEN + IV_LEN) as int));
        let key = self.derive_key(salt.as_slice());
        match cbc_decrypt(key.as_slice(), iv.as_slice(), ciphertext.as_slice()) {
            None => Err("Unpad Error".to_string()),
            Some(p) => Ok(p),
        }
    }
}

} // verus!
