//! A repeating-key XOR cipher over the bytes of a file.
//!
//! The file's bytes are read and written outside; the cipher maps the bytes read
//! to the bytes to write.
use vstd::prelude::*;
use vstd::string::StringSliceAdditionalSpecFns;
use crate::text::bytes_of;

verus! {

broadcast use vstd::string::group_string_axioms;

/// `data` XORed with `key` repeated, the key starting at position `start`.
pub open spec fn xor_with_key(data: Seq<u8>, key: Seq<u8>, start: int) -> Seq<u8> {
    Seq::new(data.len(), |i: int| data[i] ^ key[(start + i) % (key.len() as int)])
}

/// XOR with the same key stream twice gives the data back.
pub proof fn lemma_xor_twice(data: Seq<u8>, key: Seq<u8>, start: int)
    requires
        key.len() > 0,
        start >= 0,
    ensures
        xor_with_key(xor_with_key(data, key, start), key, start) == data,
{
    let once = xor_with_key(data, key, start);
    let twice = xor_with_key(once, key, start);
    assert forall|i: int| 0 <= i < data.len() implies twice[i] == data[i] by {
        let a = data[i];
        let b = key[(start + i) % (key.len() as int)];
        assert((a ^ b) ^ b == a) by (bit_vector);
    }
    assert(twice =~= data);
}

/// Encrypts and decrypts with a repeating key.
pub struct XorCipher {
    key: Vec<u8>,
    key_position: usize,
}

impl XorCipher {
    /// The key's bytes.
    pub closed spec fn key(&self) -> Seq<u8> {
        self.key@
    }

    /// The position in the key at which the next byte is taken.
    pub closed spec fn position(&self) -> int {
        self.key_position as int
    }

    #[verifier::type_invariant]
    spec fn position_in_key(&self) -> bool {
        self.key_position == 0 || self.key_position < self.key@.len()
    }

    /// A cipher with the UTF-8 bytes of `key` as its key.
    pub fn new(key: &str) -> (c: XorCipher)
        ensures
            c.key() == key.spec_bytes(),
            c.position() == 0,
    {
        XorCipher { key: bytes_of(key), key_position: 0 }
    }

    /// Whether the key has any bytes.
    pub fn has_key(&self) -> (b: bool)
        ensures
            b == (self.key().len() > 0),
    {
        self.key.len() > 0
    }

    /// Encrypts the bytes of a file: the key restarts at its first byte.
    pub fn encrypt_file(&mut self, contents: &[u8]) -> (r: Vec<u8>)
        requires
            old(self).key().len() > 0 || contents@.len() == 0,
        ensures
            r@ == xor_with_key(contents@, old(self).key(), 0),
            final(self).key() == old(self).key(),
            final(self).position() == (if contents@.len() == 0 {
                0
            } else {
                contents@.len() % old(self).key().len()
            }),
    {
        self.process_file(contents)
    }

    /// Decrypts the bytes of a file: the same operation as `encrypt_file`.
    pub fn decrypt_file(&mut self, contents: &[u8]) -> (r: Vec<u8>)
        requires
            old(self).key().len() > 0 || contents@.len() == 0,
        ensures
            r@ == xor_with_key(contents@, old(self).key(), 0),
            final(self).key() == old(self).key(),
            final(self).position() == (if contents@.len() == 0 {
                0
            } else {
                contents@.len() % old(self).key().len()
            }),
    {
        self.process_file(contents)
    }

    fn process_file(&mut self, contents: &[u8]) -> (r: Vec<u8>)
        requires
            old(self).key().len() > 0 || contents@.len() == 0,
        ensures
            r@ == xor_with_key(contents@, old(self).key(), 0),
            final(self).key() == old(self).key(),
            final(self).position() == (if contents@.len() == 0 {
                0
            } else {
                contents@.len() % old(self).key().len()
            }),
    {
        self.key_position = 0;
        let ghost k = self.key@;
        let mut out: Vec<u8> = Vec::new();
        let mut i: usize = 0;
        while i < contents.len()
            invariant
                i <= contents@.len(),
                self.key@ == k,
                k.len() > 0 || contents@.len() == 0,
                k.len() > 0 ==> self.key_position == (i as int) % (k.len() as int),
                k.len() == 0 ==> self.key_position == 0,
                out@ == xor_with_key(contents@.take(i as int), k, 0),
            decreases contents.len() - i,
        {
            proof {
                let m = k.len() as int;
                assert((i as int) % m < m) by (nonlinear_arith)
                    requires
                        m > 0,
                        i >= 0,
                ;
            }
            assert(self.key_position < self.key@.len());
            let b = contents[i] ^ self.key[self.key_position];
            out.push(b);
            let next = if self.key_position == self.key.len() - 1 {
                0
            } else {
                self.key_position + 1
            };
            proof {
                let m = k.len() as int;
                let p = self.key_position as int;
                assert(p == (i as int) % m);
                if p + 1 == m {
                    assert((i as int + 1) % m == 0) by (nonlinear_arith)
                        requires
                            p == (i as int) % m,
                            p + 1 == m,
                            m > 0,
                            i >= 0,
                    ;
                } else {
                    assert((i as int + 1) % m == p + 1) by (nonlinear_arith)
                        requires
                            p == (i as int) % m,
                            p + 1 < m,
                            m > 0,
                            i >= 0,
                    ;
                }
            }
            self.key_position = next;
            i += 1;
            assert(out@ =~= xor_with_key(contents@.take(i as int), k, 0));
        }
        assert(contents@.take(i as int) =~= contents@);
        out
    }
}

/// A key is acceptable when it is not empty and has at least 8 bytes.
pub fn validate_key(key: &str) -> (b: bool)
    ensures
        b == (key@.len() != 0 && key.len() >= 8),
{
    !key.is_empty() && key.len() >= 8
}

} // verus!
