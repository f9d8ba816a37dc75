//! Repeating-key XOR over the whole contents of a file.
//!
//! The file is read and written outside; its bytes are handed in here.
use vstd::prelude::*;
use crate::era1::file_encryption_utility::{xor_with_key, lemma_xor_twice};

verus! {

/// The bytes of a file XORed with `key` repeated from its first byte.
pub fn xor_encrypt_file(data: &[u8], key: &[u8]) -> (r: Vec<u8>)
    requires
        key@.len() > 0 || data@.len() == 0,
    ensures
        r@ == xor_with_key(data@, key@, 0),
{
    let mut out: Vec<u8> = Vec::new();
    let mut i: usize = 0;
    while i < data.len()
        invariant
            i <= data@.len(),
            key@.len() > 0 || data@.len() == 0,
            out@ == xor_with_key(data@.take(i as int), key@, 0),
        decreases data.len() - i,
    {
        let k = i % key.len();
        out.push(data[i] ^ key[k]);
        i += 1;
        assert(out@ =~= xor_with_key(data@.take(i as int), key@, 0));
    }
    assert(data@.take(i as int) =~= data@);
    out
}

/// Decrypts what `xor_encrypt_file` gave: the same operation.
pub fn xor_decrypt_file(data: &[u8], key: &[u8]) -> (r: Vec<u8>)
    requires
        key@.len() > 0 || data@.len() == 0,
    ensures
        r@ == xor_with_key(data@, key@, 0),
{
    xor_encrypt_file(data, key)
}

/// Decrypting what was encrypted with the same non-empty key gives the data back.
pub proof fn lemma_decrypt_encrypted(data: Seq<u8>, key: Seq<u8>)
    requires
        key.len() > 0,
    ensures
        xor_with_key(xor_with_key(data, key, 0), key, 0) == data,
{
    lemma_xor_twice(data, key, 0);
}

} // verus!
