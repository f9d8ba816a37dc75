//! Random passwords drawn from lowercase letters and optional other sets.
use vstd::prelude::*;
use crate::random::random_index;
use crate::text::{string_from_chars, append_str};

verus! {

broadcast use vstd::string::group_string_axioms;

/// The characters a password may be drawn from: the lowercase letters, then the
/// capitals, digits and symbols chosen.
pub open spec fn password_charset(use_uppercase: bool, use_numbers: bool, use_symbols: bool) -> Seq<char> {
    "abcdefghijklmnopqrstuvwxyz"@ + (if use_uppercase {
        "ABCDEFGHIJKLMNOPQRSTUVWXYZ"@
    } else {
        Seq::empty()
    }) + (if use_numbers {
        "0123456789"@
    } else {
        Seq::empty()
    }) + (if use_symbols {
        "!@#$%^&*()_+-=[]{}|;:,.<>?"@
    } else {
        Seq::empty()
    })
}

/// A random password of `length` characters, each drawn from the chosen sets.
pub fn generate_password(length: usize, use_uppercase: bool, use_numbers: bool, use_symbols: bool) -> (p: String)
    ensures
        p@.len() == length,
        forall|i: int| 0 <= i < length ==> password_charset(use_uppercase, use_numbers, use_symbols).contains(#[trigger] p@[i]),
{
    let mut charset: Vec<char> = Vec::new();
    append_str(&mut charset, "abcdefghijklmnopqrstuvwxyz");
    if use_uppercase {
        append_str(&mut charset, "ABCDEFGHIJKLMNOPQRSTUVWXYZ");
    }
    if use_numbers {
        append_str(&mut charset, "0123456789");
    }
    if use_symbols {
        append_str(&mut charset, "!@#$%^&*()_+-=[]{}|;:,.<>?");
    }
    let ghost cs = password_charset(use_uppercase, use_numbers, use_symbols);
    assert(charset@ =~= cs);
    proof {
        reveal_strlit("abcdefghijklmnopqrstuvwxyz");
    }
    let mut out: Vec<char> = Vec::new();
    let mut i: usize = 0;
    while i < length
        invariant
            i <= length,
            charset@ == cs,
            charset@.len() >= 26,
            out@.len() == i,
            forall|j: int| 0 <= j < i ==> cs.contains(#[trigger] out@[j]),
        decreases length - i,
    {
        let idx = random_index(charset.len());
        let c = charset[idx];
        out.push(c);
        assert(cs[idx as int] == c);
        i += 1;
    }
    string_from_chars(out.as_slice())
}

} // verus!
