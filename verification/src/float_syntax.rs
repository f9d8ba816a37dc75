//! The decimal syntax that `str::parse::<f64>` accepts.
//!
//! The standard library documents it as the grammar
//! `Sign? ( 'inf' | 'infinity' | 'nan' | Number )`, read case-insensitively, where
//! `Number ::= ( Digit+ | Digit+ '.' Digit* | Digit* '.' Digit+ ) Exp?` and
//! `Exp ::= 'e' Sign? Digit+`. Below, `Number` is stated as an automaton.
use vstd::prelude::*;

verus! {

/// An ASCII decimal digit.
pub open spec fn is_digit(c: char) -> bool {
    '0' <= c && c <= '9'
}

/// A `+` or `-` sign.
pub open spec fn is_sign(c: char) -> bool {
    c == '+' || c == '-'
}

/// `c` with an ASCII capital letter made lower case.
pub open spec fn ascii_lower(c: char) -> char {
    if 'A' <= c && c <= 'Z' {
        ((c as u32) + 32) as char
    } else {
        c
    }
}

/// `s` equals the lower-case word `w` when ASCII case is ignored.
pub open spec fn eq_ignore_ascii_case(s: Seq<char>, w: Seq<char>) -> bool {
    s.len() == w.len() && forall|i: int| 0 <= i < s.len() ==> ascii_lower(#[trigger] s[i]) == w[i]
}

/// The states of the automaton that reads `Number`.
#[derive(PartialEq, Eq, Structural, Clone, Copy)]
pub enum NumState {
    /// Nothing read yet.
    Start,
    /// Digits of the integer part.
    Int,
    /// A point with no digit before it.
    PointOnly,
    /// The fraction (possibly empty, after at least one digit).
    Frac,
    /// The exponent marker.
    ExpMark,
    /// The exponent's sign.
    ExpSign,
    /// Digits of the exponent.
    ExpDigits,
    /// No continuation is accepted.
    Dead,
}

/// One step of the automaton.
pub open spec fn step(st: NumState, c: char) -> NumState {
    match st {
        NumState::Start => if is_digit(c) {
            NumState::Int
        } else if c == '.' {
            NumState::PointOnly
        } else {
            NumState::Dead
        },
        NumState::Int => if is_digit(c) {
            NumState::Int
        } else if c == '.' {
            NumState::Frac
        } else if c == 'e' || c == 'E' {
            NumState::ExpMark
        } else {
            NumState::Dead
        },
        NumState::PointOnly => if is_digit(c) {
            NumState::Frac
        } else {
            NumState::Dead
        },
        NumState::Frac => if is_digit(c) {
            NumState::Frac
        } else if c == 'e' || c == 'E' {
            NumState::ExpMark
        } else {
            NumState::Dead
        },
        NumState::ExpMark => if is_sign(c) {
            NumState::ExpSign
        } else if is_digit(c) {
            NumState::ExpDigits
        } else {
            NumState::Dead
        },
        NumState::ExpSign => if is_digit(c) {
            NumState::ExpDigits
        } else {
            NumState::Dead
        },
        NumState::ExpDigits => if is_digit(c) {
            NumState::ExpDigits
        } else {
            NumState::Dead
        },
        NumState::Dead => NumState::Dead,
    }
}

/// The state reached after reading `s` from `st`.
pub open spec fn run(st: NumState, s: Seq<char>) -> NumState
    decreases s.len(),
{
    if s.len() == 0 {
        st
    } else {
        run(step(st, s[0]), s.drop_first())
    }
}

/// The states in which a complete `Number` has been read.
pub open spec fn accepting(st: NumState) -> bool {
    st == NumState::Int || st == NumState::Frac || st == NumState::ExpDigits
}

/// `s` (after any sign) is one of the special values.
pub open spec fn is_special(s: Seq<char>) -> bool {
    eq_ignore_ascii_case(s, seq!['i', 'n', 'f']) || eq_ignore_ascii_case(
        s,
        seq!['i', 'n', 'f', 'i', 'n', 'i', 't', 'y'],
    ) || eq_ignore_ascii_case(s, seq!['n', 'a', 'n'])
}

/// `t` without its leading sign, if it has one.
pub open spec fn unsigned_part(t: Seq<char>) -> Seq<char> {
    if t.len() > 0 && is_sign(t[0]) {
        t.drop_first()
    } else {
        t
    }
}

/// `t` is text that `str::parse::<f64>` accepts.
pub open spec fn float_syntax(t: Seq<char>) -> bool {
    let r = unsigned_part(t);
    is_special(r) || accepting(run(NumState::Start, r))
}

/// Executable step of the automaton.
pub fn step_exec(st: NumState, c: char) -> (r: NumState)
    ensures
        r == step(st, c),
{
    let digit = '0' <= c && c <= '9';
    match st {
        NumState::Start => if digit {
            NumState::Int
        } else if c == '.' {
            NumState::PointOnly
        } else {
            NumState::Dead
        },
        NumState::Int => if digit {
            NumState::Int
        } else if c == '.' {
            NumState::Frac
        } else if c == 'e' || c == 'E' {
            NumState::ExpMark
        } else {
            NumState::Dead
        },
        NumState::PointOnly => if digit {
            NumState::Frac
        } else {
            NumState::Dead
        },
        NumState::Frac => if digit {
            NumState::Frac
        } else if c == 'e' || c == 'E' {
            NumState::ExpMark
        } else {
            NumState::Dead
        },
        NumState::ExpMark => if c == '+' || c == '-' {
            NumState::ExpSign
        } else if digit {
            NumState::ExpDigits
        } else {
            NumState::Dead
        },
        NumState::ExpSign => if digit {
            NumState::ExpDigits
        } else {
            NumState::Dead
        },
        NumState::ExpDigits => if digit {
            NumState::ExpDigits
        } else {
            NumState::Dead
        },
        NumState::Dead => NumState::Dead,
    }
}

/// Lower-cases an ASCII capital letter.
pub fn ascii_lower_exec(c: char) -> (r: char)
    ensures
        r == ascii_lower(c),
{
    if 'A' <= c && c <= 'Z' {
        let b = ((c as u32) + 32) as u8;
        b as char
    } else {
        c
    }
}

/// Whether `t[from..]` equals the lower-case word `w`, ignoring ASCII case.
pub fn rest_eq_ignore_case(t: &[char], from: usize, w: &[char]) -> (b: bool)
    requires
        from <= t@.len(),
    ensures
        b == eq_ignore_ascii_case(t@.skip(from as int), w@),
{
    if t.len() - from != w.len() {
        return false;
    }
    let mut i: usize = 0;
    while i < w.len()
        invariant
            from <= t@.len(),
            t@.len() - from == w@.len(),
            i <= w@.len(),
            forall|j: int| 0 <= j < i ==> ascii_lower(#[trigger] t@.skip(from as int)[j]) == w@[j],
        decreases w.len() - i,
    {
        assert(from + i < t.len());
        if ascii_lower_exec(t[from + i]) != w[i] {
            assert(ascii_lower(t@.skip(from as int)[i as int]) != w@[i as int]);
            return false;
        }
        i += 1;
    }
    true
}

/// Whether `str::parse::<f64>` accepts the text `t`.
pub fn float_syntax_ok(t: &[char]) -> (b: bool)
    ensures
        b == float_syntax(t@),
{
    let n = t.len();
    let from: usize = if n > 0 && (t[0] == '+' || t[0] == '-') {
        1
    } else {
        0
    };
    assert(unsigned_part(t@) =~= t@.skip(from as int));
    let inf = ['i', 'n', 'f'];
    let infinity = ['i', 'n', 'f', 'i', 'n', 'i', 't', 'y'];
    let nan = ['n', 'a', 'n'];
    assert(inf@ =~= seq!['i', 'n', 'f']);
    assert(infinity@ =~= seq!['i', 'n', 'f', 'i', 'n', 'i', 't', 'y']);
    assert(nan@ =~= seq!['n', 'a', 'n']);
    if rest_eq_ignore_case(t, from, &inf) || rest_eq_ignore_case(t, from, &infinity)
        || rest_eq_ignore_case(t, from, &nan) {
        return true;
    }
    let mut st = NumState::Start;
    let mut i = from;
    while i < n
        invariant
            from <= i <= n,
            n == t@.len(),
            run(NumState::Start, t@.skip(from as int)) == run(st, t@.skip(i as int)),
        decreases n - i,
    {
        assert(t@.skip(i as int).drop_first() =~= t@.skip(i + 1));
        st = step_exec(st, t[i]);
        i += 1;
    }
    assert(t@.skip(n as int).len() == 0);
    st == NumState::Int || st == NumState::Frac || st == NumState::ExpDigits
}

} // verus!
