//! Random tokens, API keys and session identifiers.
use vstd::prelude::*;
use crate::random::{is_ascii_alphanumeric, random_alphanumeric};
use crate::text::{string_from_chars, concat_str};

verus! {

broadcast use vstd::string::group_string_axioms;

/// Every character of `s` is an ASCII letter or digit.
pub open spec fn all_alphanumeric(s: Seq<char>) -> bool {
    forall|i: int| 0 <= i < s.len() ==> is_ascii_alphanumeric(#[trigger] s[i])
}

/// A random token of `length` ASCII letters and digits.
pub fn generate_secure_token(length: usize) -> (t: String)
    ensures
        t@.len() == length,
        all_alphanumeric(t@),
{
    let mut chars: Vec<char> = Vec::new();
    let mut i: usize = 0;
    while i < length
        invariant
            i <= length,
            chars@.len() == i,
            all_alphanumeric(chars@),
        decreases length - i,
    {
        chars.push(random_alphanumeric());
        i += 1;
    }
    string_from_chars(chars.as_slice())
}

/// A random API key: `sk_` and 32 random ASCII letters and digits.
pub fn generate_api_key() -> (k: String)
    ensures
        k@.len() == 35,
        k@.take(3) == "sk_"@,
        all_alphanumeric(k@.skip(3)),
{
    let token = generate_secure_token(32);
    let k = concat_str("sk_", token.as_str());
    proof {
        reveal_strlit("sk_");
        assert(k@.take(3) =~= "sk_"@);
        assert(k@.skip(3) =~= token@);
    }
    k
}

/// A random session identifier of 64 ASCII letters and digits.
pub fn generate_session_id() -> (s: String)
    ensures
        s@.len() == 64,
        all_alphanumeric(s@),
{
    generate_secure_token(64)
}

} // verus!
