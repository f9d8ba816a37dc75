//! SHA-256 checksums of file contents, compared with each other or with a
//! checksum given as text.
//!
//! The files are read outside; their bytes are handed in here.
use vstd::prelude::*;
use sha2::Digest;
use crate::hex_codec::{hex_text, hex_digit};
use crate::text::{string_from_chars, chars_of, chars_eq, lowercase, to_lowercase};

verus! {

broadcast use vstd::string::group_string_axioms;

/// The SHA-256 digest of `data`, as the `sha2` crate computes it.
pub uninterp spec fn sha256(data: Seq<u8>) -> Seq<u8>;

/// `Sha256::digest` of the `sha2` crate: the 32-byte digest of `data`.
#[verifier::external_body]
fn sha256_digest(data: &[u8]) -> (d: Vec<u8>)
    ensures
        d@ == sha256(data@),
        d@.len() == 32,
{
    sha2::Sha256::digest(data).to_vec()
}

/// The lowercase hexadecimal text of `bytes`.
pub fn lower_hex(bytes: &[u8]) -> (s: String)
    ensures
        s@ == hex_text(bytes@),
{
    let digits = vec!['0', '1', '2', '3', '4', '5', '6', '7', '8', '9', 'a', 'b', 'c', 'd', 'e', 'f'];
    assert forall|n: int| 0 <= n < 16 implies digits@[n] == hex_digit(n) by {
    }
    let mut out: Vec<char> = Vec::new();
    let mut i: usize = 0;
    while i < bytes.len()
        invariant
            i <= bytes@.len(),
            digits@.len() == 16,
            forall|n: int| 0 <= n < 16 ==> digits@[n] == hex_digit(n),
            out@ == hex_text(bytes@.take(i as int)),
        decreases bytes.len() - i,
    {
        let b = bytes[i];
        out.push(digits[(b / 16) as usize]);
        out.push(digits[(b % 16) as usize]);
        i += 1;
        assert(out@ =~= hex_text(bytes@.take(i as int)));
    }
    assert(bytes@.take(i as int) =~= bytes@);
    string_from_chars(out.as_slice())
}

/// Computes and compares SHA-256 checksums.
pub struct FileHashVerifier;

impl FileHashVerifier {
    /// The SHA-256 checksum of the bytes `contents`, as lowercase hexadecimal text.
    pub fn calculate_sha256(contents: &[u8]) -> (s: String)
        ensures
            s@ == hex_text(sha256(contents@)),
    {
        let digest = sha256_digest(contents);
        lower_hex(digest.as_slice())
    }

    /// Whether the checksum of `contents` is `expected_hash`, whatever its case.
    pub fn verify_file_integrity(contents: &[u8], expected_hash: &str) -> (b: bool)
        ensures
            b == (hex_text(sha256(contents@)) == lowercase(expected_hash@)),
    {
        let calculated = Self::calculate_sha256(contents);
        let expected = to_lowercase(expected_hash);
        let c = chars_of(calculated.as_str());
        let e = chars_of(expected.as_str());
        chars_eq(c.as_slice(), e.as_slice())
    }

    /// Whether the two files' contents have the same checksum.
    pub fn compare_files(first: &[u8], second: &[u8]) -> (b: bool)
        ensures
            b == (hex_text(sha256(first@)) == hex_text(sha256(second@))),
    {
        let hash1 = Self::calculate_sha256(first);
        let hash2 = Self::calculate_sha256(second);
        let c1 = chars_of(hash1.as_str());
        let c2 = chars_of(hash2.as_str());
        chars_eq(c1.as_slice(), c2.as_slice())
    }
}

} // verus!
