//! Decimal integers as `str::parse` reads them for the unsigned integer types.
use vstd::prelude::*;
use crate::float_syntax::is_digit;

verus! {

/// The value of the digit `c`.
pub open spec fn digit_value(c: char) -> int {
    (c as u32) as int - ('0' as u32) as int
}

/// Every character of `s` is a decimal digit.
pub open spec fn all_digits(s: Seq<char>) -> bool {
    forall|i: int| 0 <= i < s.len() ==> is_digit(#[trigger] s[i])
}

/// The value of the decimal numeral `s`.
pub open spec fn decimal_value(s: Seq<char>) -> int
    decreases s.len(),
{
    if s.len() == 0 {
        0
    } else {
        10 * decimal_value(s.drop_last()) + digit_value(s.last())
    }
}

/// `s` without a leading `+`, if it has one.
pub open spec fn without_plus(s: Seq<char>) -> Seq<char> {
    if s.len() > 0 && s[0] == '+' {
        s.drop_first()
    } else {
        s
    }
}

/// What `str::parse` gives for an unsigned type whose largest value is `max`:
/// an optional `+`, then at least one digit and nothing else, of value at most `max`.
pub open spec fn parse_unsigned(s: Seq<char>, max: int) -> Option<int> {
    let d = without_plus(s);
    if d.len() > 0 && all_digits(d) && decimal_value(d) <= max {
        Some(decimal_value(d))
    } else {
        None
    }
}

/// A numeral's value is at least that of each of its prefixes.
pub proof fn lemma_decimal_prefix(s: Seq<char>, i: int)
    requires
        all_digits(s),
        0 <= i <= s.len(),
    ensures
        0 <= decimal_value(s.take(i)) <= decimal_value(s),
    decreases s.len(),
{
    if i == s.len() {
        assert(s.take(i) =~= s);
        lemma_decimal_nonneg(s);
    } else {
        assert(all_digits(s.drop_last()));
        lemma_decimal_prefix(s.drop_last(), i);
        assert(s.drop_last().take(i) =~= s.take(i));
        lemma_decimal_nonneg(s.drop_last());
    }
}

/// A numeral's value is not negative.
pub proof fn lemma_decimal_nonneg(s: Seq<char>)
    requires
        all_digits(s),
    ensures
        decimal_value(s) >= 0,
    decreases s.len(),
{
    if s.len() > 0 {
        assert(all_digits(s.drop_last()));
        lemma_decimal_nonneg(s.drop_last());
    }
}

/// Reads an unsigned decimal of value at most `max`, as `str::parse` does.
pub fn parse_unsigned_chars(t: &[char], max: u64) -> (r: Option<u64>)
    ensures
        match r {
            Some(v) => parse_unsigned(t@, max as int) == Some(v as int),
            None => parse_unsigned(t@, max as int) is None,
        },
{
    let from: usize = if t.len() > 0 && t[0] == '+' {
        1
    } else {
        0
    };
    let ghost d = t@.skip(from as int);
    assert(without_plus(t@) =~= d);
    if from == t.len() {
        return None;
    }
    let mut value: u64 = 0;
    let mut i = from;
    while i < t.len()
        invariant
            from <= i <= t@.len(),
            from < t@.len(),
            d == t@.skip(from as int),
            without_plus(t@) == d,
            all_digits(d.take(i - from)),
            value as int == decimal_value(d.take(i - from)),
            value <= max,
        decreases t.len() - i,
    {
        let c = t[i];
        if !('0' <= c && c <= '9') {
            assert(d[i - from] == c);
            assert(!is_digit(d[i - from]));
            return None;
        }
        let dv = (c as u32 - '0' as u32) as u64;
        assert(d.take(i - from + 1).drop_last() =~= d.take(i - from));
        assert(all_digits(d.take(i - from + 1)));
        if dv > max || value > (max - dv) / 10 {
            proof {
                if dv <= max {
                    assert(value * 10 + dv > max) by (nonlinear_arith)
                        requires
                            value > (max - dv) / 10,
                            dv <= max,
                    ;
                }
                if all_digits(d) {
                    lemma_decimal_prefix(d, i - from + 1);
                }
            }
            return None;
        }
        value = value * 10 + dv;
        i += 1;
    }
    assert(d.take(i - from) =~= d);
    Some(value)
}

/// Why text is not an unsigned integer, as `ParseIntError::kind` reports it.
#[derive(PartialEq, Eq, Structural, Clone, Copy, Debug)]
pub enum IntParseFailure {
    /// The text is empty.
    Empty,
    /// A character is not a digit, or there is no digit after the sign.
    InvalidDigit,
    /// The value is too large for the type.
    PosOverflow,
}

/// The failure `str::parse` reports for text that is not an unsigned integer at most `max`.
pub open spec fn unsigned_failure(s: Seq<char>, max: int) -> IntParseFailure {
    let d = without_plus(s);
    if s.len() == 0 {
        IntParseFailure::Empty
    } else if d.len() == 0 || !all_digits(d) {
        IntParseFailure::InvalidDigit
    } else {
        IntParseFailure::PosOverflow
    }
}

impl IntParseFailure {
    /// The text of the failure, as `ParseIntError` displays it.
    pub open spec fn text(self) -> Seq<char> {
        match self {
            IntParseFailure::Empty => "cannot parse integer from empty string"@,
            IntParseFailure::InvalidDigit => "invalid digit found in string"@,
            IntParseFailure::PosOverflow => "number too large to fit in target type"@,
        }
    }

    /// The text of the failure.
    pub fn message(self) -> (m: String)
        ensures
            m@ == self.text(),
    {
        match self {
            IntParseFailure::Empty => "cannot parse integer from empty string".to_string(),
            IntParseFailure::InvalidDigit => "invalid digit found in string".to_string(),
            IntParseFailure::PosOverflow => "number too large to fit in target type".to_string(),
        }
    }
}

/// Reads an unsigned integer of value at most `max`, or says why it cannot.
pub fn parse_unsigned_or_failure(s: &str, max: u64) -> (r: Result<u64, IntParseFailure>)
    ensures
        match r {
            Ok(v) => parse_unsigned(s@, max as int) == Some(v as int),
            Err(f) => parse_unsigned(s@, max as int) is None && f == unsigned_failure(
                s@,
                max as int,
            ),
        },
{
    let t = crate::text::chars_of(s);
    match parse_unsigned_chars(t.as_slice(), max) {
        Some(v) => Ok(v),
        None => {
            if t.len() == 0 {
                return Err(IntParseFailure::Empty);
            }
            let from: usize = if t[0] == '+' {
                1
            } else {
                0
            };
            assert(without_plus(t@) =~= t@.skip(from as int));
            if from == t.len() {
                return Err(IntParseFailure::InvalidDigit);
            }
            let mut i = from;
            while i < t.len()
                invariant
                    from <= i <= t@.len(),
                    t@ == s@,
                    t@.len() > 0,
                    parse_unsigned(s@, max as int) is None,
                    without_plus(t@) == t@.skip(from as int),
                    forall|j: int| from <= j < i ==> is_digit(#[trigger] t@[j]),
                decreases t.len() - i,
            {
                if !('0' <= t[i] && t[i] <= '9') {
                    assert(t@.skip(from as int)[i - from] == t@[i as int]);
                    assert(!is_digit(t@.skip(from as int)[i - from]));
                    assert(!all_digits(without_plus(t@)));
                    return Err(IntParseFailure::InvalidDigit);
                }
                i += 1;
            }
            assert(all_digits(t@.skip(from as int)));
            Err(IntParseFailure::PosOverflow)
        },
    }
}

/// Reads an unsigned decimal of value at most `max` from `s`.
pub fn parse_unsigned_str(s: &str, max: u64) -> (r: Option<u64>)
    ensures
        match r {
            Some(v) => parse_unsigned(s@, max as int) == Some(v as int),
            None => parse_unsigned(s@, max as int) is None,
        },
{
    let v = crate::text::chars_of(s);
    parse_unsigned_chars(v.as_slice(), max)
}

/// The decimal digit character of `d`, for `0 <= d < 10`.
pub open spec fn digit_char(d: int) -> char {
    (d + 48) as char
}

/// The decimal numeral of `n`, without leading zeros.
pub open spec fn decimal_text(n: nat) -> Seq<char>
    decreases n,
{
    if n < 10 {
        seq![digit_char(n as int)]
    } else {
        decimal_text(n / 10).push(digit_char((n % 10) as int))
    }
}

/// The decimal numeral of `n`, with a leading `-` when it is negative.
pub open spec fn signed_decimal_text(n: int) -> Seq<char> {
    if n < 0 {
        seq!['-'] + decimal_text((-n) as nat)
    } else {
        decimal_text(n as nat)
    }
}

fn decimal_chars(n: u128) -> (v: Vec<char>)
    ensures
        v@ == decimal_text(n as nat),
    decreases n,
{
    let digits = vec!['0', '1', '2', '3', '4', '5', '6', '7', '8', '9'];
    assert forall|d: int| 0 <= d < 10 implies digits@[d] == digit_char(d) by {
    }
    if n < 10 {
        let c = digits[n as usize];
        vec![c]
    } else {
        let mut v = decimal_chars(n / 10);
        v.push(digits[(n % 10) as usize]);
        v
    }
}

/// The decimal numeral of `n`, as `Display` writes integers.
pub fn signed_decimal(n: i128) -> (s: String)
    requires
        n > i128::MIN,
    ensures
        s@ == signed_decimal_text(n as int),
{
    if n < 0 {
        let mut v = vec!['-'];
        let d = decimal_chars((-n) as u128);
        let mut i: usize = 0;
        while i < d.len()
            invariant
                i <= d@.len(),
                v@ == seq!['-'] + d@.take(i as int),
            decreases d.len() - i,
        {
            v.push(d[i]);
            i += 1;
            assert(v@ =~= seq!['-'] + d@.take(i as int));
        }
        assert(d@.take(i as int) =~= d@);
        crate::text::string_from_chars(v.as_slice())
    } else {
        let d = decimal_chars(n as u128);
        crate::text::string_from_chars(d.as_slice())
    }
}

} // verus!
