//! Password settings, their check, and random passwords drawn from the chosen
//! character sets.
use vstd::prelude::*;
use crate::random::random_index;
use crate::text::{string_from_chars, append_str, lowercase, to_lowercase, chars_of, chars_eq};

verus! {

broadcast use vstd::string::group_string_axioms;

/// The password length when none is chosen.
pub const DEFAULT_LENGTH: usize = 16;

/// Which characters a password has, and how many.
pub struct PasswordConfig {
    pub length: usize,
    pub include_uppercase: bool,
    pub include_lowercase: bool,
    pub include_digits: bool,
    pub include_special: bool,
}

impl Default for PasswordConfig {
    fn default() -> (c: Self)
        ensures
            c.length == DEFAULT_LENGTH,
            c.include_uppercase,
            c.include_lowercase,
            c.include_digits,
            c.include_special,
    {
        PasswordConfig {
            length: DEFAULT_LENGTH,
            include_uppercase: true,
            include_lowercase: true,
            include_digits: true,
            include_special: true,
        }
    }
}

/// How many of the four character sets are chosen.
pub open spec fn sets_chosen(c: PasswordConfig) -> int {
    (if c.include_uppercase { 1int } else { 0 }) + (if c.include_lowercase { 1int } else { 0 }) + (
    if c.include_digits { 1int } else { 0 }) + (if c.include_special { 1int } else { 0 })
}

/// The characters a password may be drawn from, in the order of the sets.
pub open spec fn charset_of(c: PasswordConfig) -> Seq<char> {
    (if c.include_uppercase {
        "ABCDEFGHIJKLMNOPQRSTUVWXYZ"@
    } else {
        Seq::empty()
    }) + (if c.include_lowercase {
        "abcdefghijklmnopqrstuvwxyz"@
    } else {
        Seq::empty()
    }) + (if c.include_digits {
        "0123456789"@
    } else {
        Seq::empty()
    }) + (if c.include_special {
        "!@#$%^&*()_+-=[]{}|;:,.<>?"@
    } else {
        Seq::empty()
    })
}

impl PasswordConfig {
    /// Checks the settings: at least 8 characters, and at least two sets.
    pub fn validate(&self) -> (r: Result<(), String>)
        ensures
            self.length < 8 ==> (r matches Err(m) && m@ == "Password length must be at least 8 characters"@),
            self.length >= 8 && sets_chosen(*self) < 2 ==> (r matches Err(m) && m@
                == "At least two character sets must be selected"@),
            r is Ok <==> (self.length >= 8 && sets_chosen(*self) >= 2),
    {
        if self.length < 8 {
            return Err("Password length must be at least 8 characters".to_string());
        }
        let mut count: u32 = 0;
        if self.include_uppercase {
            count += 1;
        }
        if self.include_lowercase {
            count += 1;
        }
        if self.include_digits {
            count += 1;
        }
        if self.include_special {
            count += 1;
        }
        if count < 2 {
            return Err("At least two character sets must be selected".to_string());
        }
        Ok(())
    }

    /// The characters of the chosen sets.
    pub fn build_character_set(&self) -> (s: String)
        ensures
            s@ == charset_of(*self),
    {
        let mut cs: Vec<char> = Vec::new();
        if self.include_uppercase {
            append_str(&mut cs, "ABCDEFGHIJKLMNOPQRSTUVWXYZ");
        }
        if self.include_lowercase {
            append_str(&mut cs, "abcdefghijklmnopqrstuvwxyz");
        }
        if self.include_digits {
            append_str(&mut cs, "0123456789");
        }
        if self.include_special {
            append_str(&mut cs, "!@#$%^&*()_+-=[]{}|;:,.<>?");
        }
        assert(cs@ =~= charset_of(*self));
        string_from_chars(cs.as_slice())
    }
}

/// A random password of the configured length drawn from the chosen sets; at least
/// one set must be chosen.
pub fn generate_password(config: &PasswordConfig) -> (p: String)
    requires
        sets_chosen(*config) >= 1 || config.length == 0,
    ensures
        p@.len() == config.length,
        forall|i: int| 0 <= i < config.length ==> charset_of(*config).contains(#[trigger] p@[i]),
{
    let charset = config.build_character_set();
    let cs = chars_of(charset.as_str());
    proof {
        reveal_strlit("ABCDEFGHIJKLMNOPQRSTUVWXYZ");
        reveal_strlit("abcdefghijklmnopqrstuvwxyz");
        reveal_strlit("0123456789");
        reveal_strlit("!@#$%^&*()_+-=[]{}|;:,.<>?");
    }
    let ghost set = charset_of(*config);
    let mut out: Vec<char> = Vec::new();
    let mut i: usize = 0;
    while i < config.length
        invariant
            i <= config.length,
            cs@ == set,
            config.length > 0 ==> set.len() > 0,
            out@.len() == i,
            forall|j: int| 0 <= j < i ==> set.contains(#[trigger] out@[j]),
        decreases config.length - i,
    {
        let idx = random_index(cs.len());
        let c = cs[idx];
        out.push(c);
        assert(set[idx as int] == c);
        i += 1;
    }
    string_from_chars(out.as_slice())
}

/// The answers taken as yes: `y`, `yes`, `true` and `1`, after lowercasing.
pub open spec fn is_yes(lowered: Seq<char>) -> bool {
    lowered == "y"@ || lowered == "yes"@ || lowered == "true"@ || lowered == "1"@
}

/// Whether the answer `input` means yes.
pub fn parse_bool_input(input: &str) -> (b: bool)
    ensures
        b == is_yes(lowercase(input@)),
{
    let low = to_lowercase(input);
    let l = chars_of(low.as_str());
    let y = chars_of("y");
    let yes = chars_of("yes");
    let t = chars_of("true");
    let one = chars_of("1");
    chars_eq(l.as_slice(), y.as_slice()) || chars_eq(l.as_slice(), yes.as_slice()) || chars_eq(
        l.as_slice(),
        t.as_slice(),
    ) || chars_eq(l.as_slice(), one.as_slice())
}

} // verus!
