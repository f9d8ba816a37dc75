//! Random choices, made with the `rand` crate's thread-local generator.
use vstd::prelude::*;
use rand::Rng;

verus! {

/// An ASCII letter or decimal digit.
pub open spec fn is_ascii_alphanumeric(c: char) -> bool {
    ('A' <= c && c <= 'Z') || ('a' <= c && c <= 'z') || ('0' <= c && c <= '9')
}

/// One character drawn by `rand::distributions::Alphanumeric` from `thread_rng()`;
/// the crate draws it from the 62 ASCII letters and digits, which is all that is
/// claimed of it.
#[verifier::external_body]
pub(crate) fn random_alphanumeric() -> (c: char)
    ensures
        is_ascii_alphanumeric(c),
{
    rand::thread_rng().sample(rand::distributions::Alphanumeric) as char
}

/// A position drawn by `Rng::gen_range(0..bound)` from `thread_rng()`: some
/// number below `bound`, which the call's documentation promises (it panics on an
/// empty range, which `requires` rules out).
#[verifier::external_body]
pub(crate) fn random_index(bound: usize) -> (i: usize)
    requires
        bound > 0,
    ensures
        i < bound,
{
    rand::thread_rng().gen_range(0..bound)
}

/// Bytes filled by `RngCore::fill_bytes` from `thread_rng()`; nothing is claimed of
/// their values.
#[verifier::external_body]
pub(crate) fn random_key_bytes() -> (b: [u8; 32]) {
    let mut b = [0u8; 32];
    rand::RngCore::fill_bytes(&mut rand::thread_rng(), &mut b);
    b
}

/// `n` bytes filled by `RngCore::fill_bytes` from `thread_rng()`; nothing is
/// claimed of their values.
#[verifier::external_body]
pub(crate) fn random_bytes(n: usize) -> (b: Vec<u8>)
    ensures
        b@.len() == n,
{
    let mut b = vec![0u8; n];
    rand::RngCore::fill_bytes(&mut rand::thread_rng(), &mut b);
    b
}

} // verus!
