//! A recursive-descent JSON parser over the characters of its input.
//!
//! The grammar it reads is stated by the spec functions `p_value` and its helpers;
//! each method of `JsonParser` is proved to compute what they describe.
use vstd::prelude::*;
use crate::text::{is_ws, is_whitespace, chars_of, string_from_chars, spaces, append_str, append_spaces};
use crate::float_syntax::{is_digit, float_syntax, float_syntax_ok};
use crate::json_value::{
    Json,
    JsonValue,
    models,
    entry_models,
    obj_insert,
    lemma_array_model,
    lemma_object_model,
    insert_entry,
    json_depth,
    lemma_items_depth,
    lemma_entries_depth,
};

verus! {

broadcast use vstd::string::group_string_axioms;

/// The position of the first non-whitespace character at or after `p`.
pub open spec fn ws_end(s: Seq<char>, p: int) -> int
    decreases s.len() - p,
{
    if 0 <= p < s.len() && is_ws(s[p]) {
        ws_end(s, p + 1)
    } else {
        p
    }
}

/// What an escape letter after a backslash stands for.
pub open spec fn unescape(e: char) -> Option<char> {
    if e == '"' {
        Some('"')
    } else if e == '\\' {
        Some('\\')
    } else if e == '/' {
        Some('/')
    } else if e == 'b' {
        Some('\u{0008}')
    } else if e == 'f' {
        Some('\u{000C}')
    } else if e == 'n' {
        Some('\n')
    } else if e == 'r' {
        Some('\r')
    } else if e == 't' {
        Some('\t')
    } else {
        None
    }
}

/// The content of a string literal whose body starts at `i`, with `acc` read so far,
/// and the position after it. Input that ends inside the literal ends it.
pub open spec fn str_body(s: Seq<char>, i: int, acc: Seq<char>) -> Result<
    (Seq<char>, int),
    Seq<char>,
>
    decreases s.len() - i,
{
    if i >= s.len() {
        Ok((acc, i))
    } else if s[i] == '"' {
        Ok((acc, i + 1))
    } else if s[i] == '\\' {
        if i + 1 >= s.len() {
            Err("Unterminated string"@)
        } else {
            match unescape(s[i + 1]) {
                Some(c) => str_body(s, i + 2, acc.push(c)),
                None => Err("Invalid escape sequence"@),
            }
        }
    } else {
        str_body(s, i + 1, acc.push(s[i]))
    }
}

/// The end of the characters that make up a number, scanning from `i`.
pub open spec fn num_scan(s: Seq<char>, i: int, dot: bool, exp: bool) -> int
    decreases s.len() - i,
{
    if i < 0 || i >= s.len() {
        i
    } else if is_digit(s[i]) {
        num_scan(s, i + 1, dot, exp)
    } else if s[i] == '.' && !dot && !exp {
        num_scan(s, i + 1, true, exp)
    } else if (s[i] == 'e' || s[i] == 'E') && !exp {
        if i + 1 < s.len() && (s[i + 1] == '+' || s[i + 1] == '-') {
            num_scan(s, i + 2, dot, true)
        } else {
            num_scan(s, i + 1, dot, true)
        }
    } else {
        i
    }
}

/// `s` holds the word `w` at position `p`.
pub open spec fn word_at(s: Seq<char>, p: int, w: Seq<char>) -> bool {
    0 <= p && p + w.len() <= s.len() && s.subrange(p, p + w.len()) == w
}

/// `null` at `q`.
pub open spec fn p_null(s: Seq<char>, q: int) -> Result<(Json, int), Seq<char>> {
    if word_at(s, q, "null"@) {
        Ok((Json::Null, q + 4))
    } else {
        Err("Expected 'null'"@)
    }
}

/// `true` or `false` at `q`.
pub open spec fn p_bool(s: Seq<char>, q: int) -> Result<(Json, int), Seq<char>> {
    if word_at(s, q, "true"@) {
        Ok((Json::Bool(true), q + 4))
    } else if word_at(s, q, "false"@) {
        Ok((Json::Bool(false), q + 5))
    } else {
        Err("Expected boolean value"@)
    }
}

/// A string literal whose opening quote is at `q`.
pub open spec fn p_string(s: Seq<char>, q: int) -> Result<(Json, int), Seq<char>> {
    match str_body(s, q + 1, Seq::empty()) {
        Ok((t, e)) => Ok((Json::Str(t), e)),
        Err(m) => Err(m),
    }
}

/// A number starting at `q`; its text is kept when `str::parse::<f64>` accepts it.
pub open spec fn p_number(s: Seq<char>, q: int) -> Result<(Json, int), Seq<char>> {
    let a = if 0 <= q < s.len() && s[q] == '-' {
        q + 1
    } else {
        q
    };
    let e = num_scan(s, a, false, false);
    let lexeme = s.subrange(q, e);
    if float_syntax(lexeme) {
        Ok((Json::Number(lexeme), e))
    } else {
        Err("Invalid number format"@)
    }
}

/// A value at or after `p` (after whitespace), and the position after it.
pub open spec fn p_value(s: Seq<char>, p: int) -> Result<(Json, int), Seq<char>>
    decreases s.len() - p, 1int,
{
    if !(0 <= p <= s.len()) {
        Err("Invalid JSON value"@)
    } else {
        let q = ws_end(s, p);
        proof {
            lemma_ws_end(s, p);
        }
        if q >= s.len() {
            Err("Invalid JSON value"@)
        } else {
            let c = s[q];
            if c == 'n' {
                p_null(s, q)
            } else if c == 't' || c == 'f' {
                p_bool(s, q)
            } else if c == '"' {
                p_string(s, q)
            } else if c == '[' {
                p_array(s, q)
            } else if c == '{' {
                p_object(s, q)
            } else if is_digit(c) || c == '-' {
                p_number(s, q)
            } else {
                Err("Invalid JSON value"@)
            }
        }
    }
}

/// An array whose opening bracket is at `q`.
pub open spec fn p_array(s: Seq<char>, q: int) -> Result<(Json, int), Seq<char>>
    decreases s.len() - q, 0int,
{
    if !(0 <= q < s.len()) {
        Err("Invalid JSON value"@)
    } else {
        let p1 = ws_end(s, q + 1);
        proof {
            lemma_ws_end(s, q + 1);
        }
        if p1 < s.len() && s[p1] == ']' {
            Ok((Json::Array(Seq::empty()), p1 + 1))
        } else {
            arr_items(s, p1, Seq::empty())
        }
    }
}

/// The remaining elements of an array, the next one at or after `p`, with `acc` read so far.
pub open spec fn arr_items(s: Seq<char>, p: int, acc: Seq<Json>) -> Result<(Json, int), Seq<char>>
    decreases s.len() - p, 2int,
{
    if !(0 <= p <= s.len()) {
        Err("Invalid JSON value"@)
    } else {
        match p_value(s, p) {
            Err(m) => Err(m),
            Ok((v, e)) => {
                if !(p < e <= s.len()) {
                    Err("Invalid JSON value"@)
                } else {
                    let p2 = ws_end(s, e);
                    proof {
                        lemma_ws_end(s, e);
                    }
                    if p2 < s.len() && s[p2] == ']' {
                        Ok((Json::Array(acc.push(v)), p2 + 1))
                    } else if p2 < s.len() && s[p2] == ',' {
                        let p3 = ws_end(s, p2 + 1);
                        proof {
                            lemma_ws_end(s, p2 + 1);
                        }
                        arr_items(s, p3, acc.push(v))
                    } else {
                        Err("Expected ',' or ']' in array"@)
                    }
                }
            },
        }
    }
}

/// An object whose opening brace is at `q`.
pub open spec fn p_object(s: Seq<char>, q: int) -> Result<(Json, int), Seq<char>>
    decreases s.len() - q, 0int,
{
    if !(0 <= q < s.len()) {
        Err("Invalid JSON value"@)
    } else {
        let p1 = ws_end(s, q + 1);
        proof {
            lemma_ws_end(s, q + 1);
        }
        if p1 < s.len() && s[p1] == '}' {
            Ok((Json::Object(Seq::empty()), p1 + 1))
        } else {
            obj_items(s, p1, Seq::empty())
        }
    }
}

/// The remaining members of an object, the next key at or after `p`, with `acc` read so far.
pub open spec fn obj_items(s: Seq<char>, p: int, acc: Seq<(Seq<char>, Json)>) -> Result<
    (Json, int),
    Seq<char>,
>
    decreases s.len() - p, 2int,
{
    if !(0 <= p <= s.len()) {
        Err("Invalid JSON value"@)
    } else {
        match p_value(s, p) {
            Err(m) => Err(m),
            Ok((k, e)) => {
                if !(p < e <= s.len()) {
                    Err("Invalid JSON value"@)
                } else {
                    match k {
                        Json::Str(key) => {
                            let c1 = ws_end(s, e);
                            proof {
                                lemma_ws_end(s, e);
                            }
                            if !(c1 < s.len() && s[c1] == ':') {
                                Err("Expected ':' after object key"@)
                            } else {
                                let v1 = ws_end(s, c1 + 1);
                                proof {
                                    lemma_ws_end(s, c1 + 1);
                                }
                                match p_value(s, v1) {
                                    Err(m) => Err(m),
                                    Ok((val, e2)) => {
                                        if !(v1 < e2 <= s.len()) {
                                            Err("Invalid JSON value"@)
                                        } else {
                                            let acc2 = obj_insert(acc, key, val);
                                            let p2 = ws_end(s, e2);
                                            proof {
                                                lemma_ws_end(s, e2);
                                            }
                                            if p2 < s.len() && s[p2] == '}' {
                                                Ok((Json::Object(acc2), p2 + 1))
                                            } else if p2 < s.len() && s[p2] == ',' {
                                                let p3 = ws_end(s, p2 + 1);
                                                proof {
                                                    lemma_ws_end(s, p2 + 1);
                                                }
                                                obj_items(s, p3, acc2)
                                            } else {
                                                Err("Expected ',' or '}' in object"@)
                                            }
                                        }
                                    },
                                }
                            }
                        },
                        _ => Err("Object keys must be strings"@),
                    }
                }
            },
        }
    }
}

/// The document that starts at `p`: one value, then nothing but whitespace.
pub open spec fn p_document(s: Seq<char>, p: int) -> Result<Json, Seq<char>> {
    match p_value(s, p) {
        Err(m) => Err(m),
        Ok((v, e)) => if ws_end(s, e) < s.len() {
            Err("Unexpected trailing characters"@)
        } else {
            Ok(v)
        },
    }
}

/// Facts about `ws_end`.
pub proof fn lemma_ws_end(s: Seq<char>, p: int)
    requires
        0 <= p <= s.len(),
    ensures
        p <= ws_end(s, p) <= s.len(),
        ws_end(s, p) < s.len() ==> !is_ws(s[ws_end(s, p)]),
        ws_end(s, ws_end(s, p)) == ws_end(s, p),
        forall|j: int| p <= j < ws_end(s, p) ==> is_ws(s[j]),
    decreases s.len() - p,
{
    if p < s.len() && is_ws(s[p]) {
        lemma_ws_end(s, p + 1);
    }
}

/// What an escape letter stands for.
pub fn unescape_exec(e: char) -> (r: Option<char>)
    ensures
        r == unescape(e),
{
    if e == '"' {
        Some('"')
    } else if e == '\\' {
        Some('\\')
    } else if e == '/' {
        Some('/')
    } else if e == 'b' {
        Some('\u{0008}')
    } else if e == 'f' {
        Some('\u{000C}')
    } else if e == 'n' {
        Some('\n')
    } else if e == 'r' {
        Some('\r')
    } else if e == 't' {
        Some('\t')
    } else {
        None
    }
}

/// No character of `a` is a quote or a backslash: inside a string literal each
/// stands for itself.
pub open spec fn plain_text(a: Seq<char>) -> bool {
    forall|i: int| 0 <= i < a.len() ==> a[i] != '"' && a[i] != '\\'
}

/// Plain characters of a string literal are read as they are.
pub proof fn lemma_str_body_plain(s: Seq<char>, i: int, acc: Seq<char>, n: int)
    requires
        0 <= i,
        0 <= n,
        i + n <= s.len(),
        plain_text(s.subrange(i, i + n)),
    ensures
        str_body(s, i, acc) == str_body(s, i + n, acc + s.subrange(i, i + n)),
    decreases n,
{
    if n == 0 {
        assert(acc + s.subrange(i, i) =~= acc);
    } else {
        assert(s.subrange(i, i + n)[0] == s[i]);
        assert(plain_text(s.subrange(i + 1, i + n))) by {
            assert forall|j: int| 0 <= j < n - 1 implies #[trigger] s.subrange(i + 1, i + n)[j] != '"' && s.subrange(
                i + 1,
                i + n,
            )[j] != '\\' by {
                assert(s.subrange(i + 1, i + n)[j] == s.subrange(i, i + n)[j + 1]);
            }
        }
        lemma_str_body_plain(s, i + 1, acc.push(s[i]), n - 1);
        assert(acc.push(s[i]) + s.subrange(i + 1, i + n) =~= acc + s.subrange(i, i + n));
    }
}

/// A string literal holding plain text, one escape and plain text again reads as
/// that text with the escape replaced by the character JSON gives it: a line
/// feed for `n`, a carriage return for `r`, a tab for `t`, a backspace for `b`, a
/// form feed for `f`, and the character itself for a quote, a backslash or a
/// slash.
pub proof fn law_string_escape(a: Seq<char>, e: char, c: char, b: Seq<char>)
    requires
        plain_text(a),
        plain_text(b),
        (e == 'n' && c == '\u{000A}') || (e == 'r' && c == '\u{000D}') || (e == 't' && c == '\u{0009}') || (e == 'b'
            && c == '\u{0008}') || (e == 'f' && c == '\u{000C}') || (e == '"' && c == '"') || (e == '\\' && c == '\\')
            || (e == '/' && c == '/'),
    ensures
        p_document(seq!['"'] + a + seq!['\\', e] + b + seq!['"'], 0) == Ok::<Json, Seq<char>>(
            Json::Str(a + seq![c] + b),
        ),
{
    let s = seq!['"'] + a + seq!['\\', e] + b + seq!['"'];
    let n: int = s.len() as int;
    let ia: int = 1;
    let ie: int = 1 + a.len() as int;
    let ib: int = 3 + a.len() as int;
    let iq: int = 3 + a.len() as int + b.len() as int;
    assert(s[0] == '"');
    assert(!is_ws('"'));
    assert(ws_end(s, 0) == 0);
    assert(s.subrange(ia, ie) =~= a);
    assert(s.subrange(ib, iq) =~= b);
    assert(s[ie] == '\\');
    assert(s[ie + 1] == e);
    assert(s[iq] == '"');
    assert(iq + 1 == n);
    lemma_str_body_plain(s, ia, Seq::empty(), a.len() as int);
    assert(Seq::<char>::empty() + a =~= a);
    assert(unescape(e) == Some(c));
    lemma_str_body_plain(s, ib, a.push(c), b.len() as int);
    assert(a.push(c) + b =~= a + seq![c] + b);
    assert(str_body(s, iq, a + seq![c] + b) == Ok::<(Seq<char>, int), Seq<char>>((a + seq![c] + b, n)));
    assert(p_value(s, 0) == Ok::<(Json, int), Seq<char>>((Json::Str(a + seq![c] + b), n)));
    lemma_ws_end(s, n);
}

/// Any other character after a backslash in a string literal is refused.
pub proof fn law_string_bad_escape(a: Seq<char>, e: char, b: Seq<char>)
    requires
        plain_text(a),
        e != 'n' && e != 'r' && e != 't' && e != 'b' && e != 'f' && e != '"' && e != '\\' && e != '/',
    ensures
        p_document(seq!['"'] + a + seq!['\\', e] + b, 0) == Err::<Json, Seq<char>>("Invalid escape sequence"@),
{
    let s = seq!['"'] + a + seq!['\\', e] + b;
    let ie: int = 1 + a.len() as int;
    assert(s[0] == '"');
    assert(!is_ws('"'));
    assert(ws_end(s, 0) == 0);
    assert(s.subrange(1, ie) =~= a);
    assert(s[ie] == '\\');
    assert(s[ie + 1] == e);
    lemma_str_body_plain(s, 1, Seq::empty(), a.len() as int);
    assert(unescape(e) is None);
}

/// A JSON parser that reads its input one character at a time.
pub struct JsonParser {
    input: Vec<char>,
    position: usize,
}

impl JsonParser {
    #[verifier::type_invariant]
    spec fn inv(&self) -> bool {
        self.position <= self.input.len()
    }

    /// The characters being parsed.
    pub closed spec fn text(&self) -> Seq<char> {
        self.input@
    }

    /// How many characters have been read.
    pub closed spec fn pos(&self) -> int {
        self.position as int
    }

    /// A parser positioned at the start of `input`.
    pub fn new(input: &str) -> (p: Self)
        ensures
            p.text() == input@,
            p.pos() == 0,
    {
        JsonParser { input: chars_of(input), position: 0 }
    }

    /// Parses one value and requires only whitespace after it.
    pub fn parse(&mut self) -> (r: Result<JsonValue, String>)
        ensures
            final(self).text() == old(self).text(),
            match r {
                Ok(v) => p_document(old(self).text(), old(self).pos()) == Ok::<
                    Json,
                    Seq<char>,
                >(v.model()),
                Err(m) => p_document(old(self).text(), old(self).pos()) == Err::<Json, Seq<char>>(
                    m@,
                ),
            },
    {
        proof {
            use_type_invariant(&*self);
            lemma_ws_end(self.input@, self.position as int);
        }
        let ghost s = self.input@;
        let ghost p0 = self.position as int;
        self.skip_whitespace();
        assert(p_value(s, self.position as int) == p_value(s, p0)) by {
            lemma_ws_end(s, p0);
            lemma_ws_end(s, self.position as int);
        }
        let value = match self.parse_value() {
            Ok(v) => v,
            Err(m) => {
                return Err(m);
            },
        };
        self.skip_whitespace();
        if self.position < self.input.len() {
            return Err("Unexpected trailing characters".to_string());
        }
        Ok(value)
    }

    /// Parses one value, skipping whitespace before it.
    fn parse_value(&mut self) -> (r: Result<JsonValue, String>)
        ensures
            final(self).input@ == old(self).input@,
            old(self).position <= final(self).position,
            match r {
                Ok(v) => p_value(old(self).input@, old(self).position as int) == Ok::<
                    (Json, int),
                    Seq<char>,
                >((v.model(), final(self).position as int)) && old(self).position
                    < final(self).position,
                Err(m) => p_value(old(self).input@, old(self).position as int) == Err::<
                    (Json, int),
                    Seq<char>,
                >(m@),
            },
        decreases old(self).input@.len() - old(self).position, 1int,
    {
        proof {
            use_type_invariant(&*self);
        }
        self.skip_whitespace();
        proof {
            use_type_invariant(&*self);
        }
        match self.peek_char() {
            Some(c) => {
                if c == 'n' {
                    self.parse_null()
                } else if c == 't' || c == 'f' {
                    self.parse_bool()
                } else if c == '"' {
                    self.parse_string()
                } else if c == '[' {
                    self.parse_array()
                } else if c == '{' {
                    self.parse_object()
                } else if ('0' <= c && c <= '9') || c == '-' {
                    self.parse_number()
                } else {
                    Err("Invalid JSON value".to_string())
                }
            },
            None => Err("Invalid JSON value".to_string()),
        }
    }

    fn parse_null(&mut self) -> (r: Result<JsonValue, String>)
        requires
            old(self).position < old(self).input.len(),
        ensures
            final(self).input@ == old(self).input@,
            old(self).position <= final(self).position,
            match r {
                Ok(v) => p_null(old(self).input@, old(self).position as int) == Ok::<
                    (Json, int),
                    Seq<char>,
                >((v.model(), final(self).position as int)) && old(self).position
                    < final(self).position,
                Err(m) => p_null(old(self).input@, old(self).position as int) == Err::<
                    (Json, int),
                    Seq<char>,
                >(m@),
            },
    {
        proof {
            reveal_strlit("null");
        }
        if self.consume_str("null") {
            Ok(JsonValue::Null)
        } else {
            Err("Expected 'null'".to_string())
        }
    }

    fn parse_bool(&mut self) -> (r: Result<JsonValue, String>)
        requires
            old(self).position < old(self).input.len(),
        ensures
            final(self).input@ == old(self).input@,
            old(self).position <= final(self).position,
            match r {
                Ok(v) => p_bool(old(self).input@, old(self).position as int) == Ok::<
                    (Json, int),
                    Seq<char>,
                >((v.model(), final(self).position as int)) && old(self).position
                    < final(self).position,
                Err(m) => p_bool(old(self).input@, old(self).position as int) == Err::<
                    (Json, int),
                    Seq<char>,
                >(m@),
            },
    {
        proof {
            reveal_strlit("true");
            reveal_strlit("false");
        }
        if self.consume_str("true") {
            Ok(JsonValue::Bool(true))
        } else if self.consume_str("false") {
            Ok(JsonValue::Bool(false))
        } else {
            Err("Expected boolean value".to_string())
        }
    }

    fn parse_string(&mut self) -> (r: Result<JsonValue, String>)
        requires
            old(self).position < old(self).input.len(),
            old(self).input@[old(self).position as int] == '"',
        ensures
            final(self).input@ == old(self).input@,
            old(self).position <= final(self).position,
            match r {
                Ok(v) => p_string(old(self).input@, old(self).position as int) == Ok::<
                    (Json, int),
                    Seq<char>,
                >((v.model(), final(self).position as int)) && old(self).position
                    < final(self).position,
                Err(m) => p_string(old(self).input@, old(self).position as int) == Err::<
                    (Json, int),
                    Seq<char>,
                >(m@),
            },
    {
        let ghost s = self.input@;
        let ghost q = self.position as int;
        self.consume_char('"');
        let mut result: Vec<char> = Vec::new();
        let mut err: Option<String> = None;
        loop
            invariant_except_break
                self.input@ == s,
                q < self.position <= s.len(),
                err.is_none(),
                str_body(s, q + 1, Seq::empty()) == str_body(s, self.position as int, result@),
            ensures
                self.input@ == s,
                q < self.position <= s.len(),
                match err {
                    None => str_body(s, q + 1, Seq::empty()) == Ok::<(Seq<char>, int), Seq<char>>(
                        (result@, self.position as int),
                    ),
                    Some(m) => str_body(s, q + 1, Seq::empty()) == Err::<
                        (Seq<char>, int),
                        Seq<char>,
                    >(m@),
                },
            decreases s.len() - self.position,
        {
            proof {
                use_type_invariant(&*self);
            }
            let c = match self.next_char() {
                Some(c) => c,
                None => {
                    break;
                },
            };
            if c == '"' {
                break;
            }
            if c == '\\' {
                match self.next_char() {
                    Some(escaped) => {
                        match unescape_exec(escaped) {
                            Some(u) => {
                                result.push(u);
                            },
                            None => {
                                err = Some("Invalid escape sequence".to_string());
                                break;
                            },
                        }
                    },
                    None => {
                        err = Some("Unterminated string".to_string());
                        break;
                    },
                }
            } else {
                result.push(c);
            }
        }
        if let Some(m) = err {
            return Err(m);
        }
        let text = string_from_chars(result.as_slice());
        Ok(JsonValue::String(text))
    }

    fn parse_number(&mut self) -> (r: Result<JsonValue, String>)
        requires
            old(self).position < old(self).input.len(),
            is_digit(old(self).input@[old(self).position as int]) || old(self).input@[old(
                self,
            ).position as int] == '-',
        ensures
            final(self).input@ == old(self).input@,
            old(self).position <= final(self).position,
            match r {
                Ok(v) => p_number(old(self).input@, old(self).position as int) == Ok::<
                    (Json, int),
                    Seq<char>,
                >((v.model(), final(self).position as int)) && old(self).position
                    < final(self).position,
                Err(m) => p_number(old(self).input@, old(self).position as int) == Err::<
                    (Json, int),
                    Seq<char>,
                >(m@),
            },
    {
        let ghost s = self.input@;
        let start = self.position;
        let mut has_dot = false;
        let mut has_exponent = false;
        if self.peek_char() == Some('-') {
            self.next_char();
        }
        let ghost a = self.position as int;
        loop
            invariant_except_break
                self.input@ == s,
                start <= self.position <= s.len(),
                num_scan(s, a, false, false) == num_scan(
                    s,
                    self.position as int,
                    has_dot,
                    has_exponent,
                ),
            ensures
                self.input@ == s,
                start <= self.position <= s.len(),
                num_scan(s, a, false, false) == self.position as int,
            decreases s.len() - self.position,
        {
            proof {
                use_type_invariant(&*self);
            }
            let c = match self.peek_char() {
                Some(c) => c,
                None => {
                    break;
                },
            };
            if '0' <= c && c <= '9' {
                self.next_char();
            } else if c == '.' && !has_dot && !has_exponent {
                has_dot = true;
                self.next_char();
            } else if (c == 'e' || c == 'E') && !has_exponent {
                has_exponent = true;
                self.next_char();
                if self.peek_char() == Some('+') || self.peek_char() == Some('-') {
                    self.next_char();
                }
            } else {
                break;
            }
        }
        let lexeme = crate::text::slice_chars(self.input.as_slice(), start, self.position);
        if float_syntax_ok(lexeme.as_slice()) {
            Ok(JsonValue::Number(string_from_chars(lexeme.as_slice())))
        } else {
            Err("Invalid number format".to_string())
        }
    }

    fn parse_array(&mut self) -> (r: Result<JsonValue, String>)
        requires
            old(self).position < old(self).input.len(),
            old(self).input@[old(self).position as int] == '[',
        ensures
            final(self).input@ == old(self).input@,
            old(self).position <= final(self).position,
            match r {
                Ok(v) => p_array(old(self).input@, old(self).position as int) == Ok::<
                    (Json, int),
                    Seq<char>,
                >((v.model(), final(self).position as int)) && old(self).position
                    < final(self).position,
                Err(m) => p_array(old(self).input@, old(self).position as int) == Err::<
                    (Json, int),
                    Seq<char>,
                >(m@),
            },
        decreases old(self).input@.len() - old(self).position, 0int,
    {
        let ghost s = self.input@;
        let ghost q = self.position as int;
        self.consume_char('[');
        self.skip_whitespace();
        proof {
            use_type_invariant(&*self);
            lemma_ws_end(s, q + 1);
        }
        let mut array: Vec<JsonValue> = Vec::new();
        let mut err: Option<String> = None;
        assert(models(array@) =~= Seq::<Json>::empty());
        if self.peek_char() != Some(']') {
            loop
                invariant_except_break
                    s == old(self).input@,
                    q == old(self).position,
                    self.input@ == s,
                    q < self.position <= s.len(),
                    err.is_none(),
                    p_array(s, q) == arr_items(s, self.position as int, models(array@)),
                ensures
                    s == old(self).input@,
                    q == old(self).position,
                    self.input@ == s,
                    q < self.position <= s.len(),
                    match err {
                        None => self.position < s.len() && s[self.position as int] == ']'
                            && p_array(s, q) == Ok::<(Json, int), Seq<char>>(
                            (Json::Array(models(array@)), self.position + 1),
                        ),
                        Some(m) => p_array(s, q) == Err::<(Json, int), Seq<char>>(m@),
                    },
                decreases s.len() - self.position,
            {
                proof {
                    use_type_invariant(&*self);
                }
                let ghost p = self.position as int;
                let parsed = self.parse_value();
                proof {
                    use_type_invariant(&*self);
                }
                let value = match parsed {
                    Ok(v) => v,
                    Err(m) => {
                        err = Some(m);
                        break;
                    },
                };
                let ghost e = self.position as int;
                let ghost vm = value.model();
                let ghost prev = array@;
                array.push(value);
                assert(models(array@) =~= models(prev).push(vm));
                self.skip_whitespace();
                proof {
                    use_type_invariant(&*self);
                    lemma_ws_end(s, e);
                }
                if self.peek_char() == Some(']') {
                    break;
                }
                if self.consume_char(',') {
                    let ghost c = self.position as int;
                    self.skip_whitespace();
                    proof {
                        lemma_ws_end(s, c);
                    }
                } else {
                    err = Some("Expected ',' or ']' in array".to_string());
                    break;
                }
            }
        }
        if let Some(m) = err {
            return Err(m);
        }
        self.consume_char(']');
        proof {
            lemma_array_model(array);
        }
        Ok(JsonValue::Array(array))
    }

    fn parse_object(&mut self) -> (r: Result<JsonValue, String>)
        requires
            old(self).position < old(self).input.len(),
            old(self).input@[old(self).position as int] == '{',
        ensures
            final(self).input@ == old(self).input@,
            old(self).position <= final(self).position,
            match r {
                Ok(v) => p_object(old(self).input@, old(self).position as int) == Ok::<
                    (Json, int),
                    Seq<char>,
                >((v.model(), final(self).position as int)) && old(self).position
                    < final(self).position,
                Err(m) => p_object(old(self).input@, old(self).position as int) == Err::<
                    (Json, int),
                    Seq<char>,
                >(m@),
            },
        decreases old(self).input@.len() - old(self).position, 0int,
    {
        let ghost s = self.input@;
        let ghost q = self.position as int;
        self.consume_char('{');
        self.skip_whitespace();
        proof {
            use_type_invariant(&*self);
            lemma_ws_end(s, q + 1);
        }
        let mut object: Vec<(String, JsonValue)> = Vec::new();
        let mut err: Option<String> = None;
        assert(entry_models(object@) =~= Seq::<(Seq<char>, Json)>::empty());
        if self.peek_char() != Some('}') {
            loop
                invariant_except_break
                    s == old(self).input@,
                    q == old(self).position,
                    self.input@ == s,
                    q < self.position <= s.len(),
                    err.is_none(),
                    p_object(s, q) == obj_items(s, self.position as int, entry_models(object@)),
                ensures
                    s == old(self).input@,
                    q == old(self).position,
                    self.input@ == s,
                    q < self.position <= s.len(),
                    match err {
                        None => self.position < s.len() && s[self.position as int] == '}'
                            && p_object(s, q) == Ok::<(Json, int), Seq<char>>(
                            (Json::Object(entry_models(object@)), self.position + 1),
                        ),
                        Some(m) => p_object(s, q) == Err::<(Json, int), Seq<char>>(m@),
                    },
                decreases s.len() - self.position,
            {
                proof {
                    use_type_invariant(&*self);
                }
                let ghost p = self.position as int;
                let parsed = self.parse_value();
                proof {
                    use_type_invariant(&*self);
                }
                let key = match parsed {
                    Ok(JsonValue::String(k)) => k,
                    Ok(_) => {
                        err = Some("Object keys must be strings".to_string());
                        break;
                    },
                    Err(m) => {
                        err = Some(m);
                        break;
                    },
                };
                let ghost e = self.position as int;
                self.skip_whitespace();
                proof {
                    use_type_invariant(&*self);
                    lemma_ws_end(s, e);
                }
                if !self.consume_char(':') {
                    err = Some("Expected ':' after object key".to_string());
                    break;
                }
                let ghost c1 = self.position as int;
                self.skip_whitespace();
                proof {
                    use_type_invariant(&*self);
                    lemma_ws_end(s, c1);
                }
                let ghost v1 = self.position as int;
                let parsed = self.parse_value();
                proof {
                    use_type_invariant(&*self);
                }
                let value = match parsed {
                    Ok(v) => v,
                    Err(m) => {
                        err = Some(m);
                        break;
                    },
                };
                let ghost e2 = self.position as int;
                insert_entry(&mut object, key, value);
                self.skip_whitespace();
                proof {
                    use_type_invariant(&*self);
                    lemma_ws_end(s, e2);
                }
                if self.peek_char() == Some('}') {
                    break;
                }
                if self.consume_char(',') {
                    let ghost c = self.position as int;
                    self.skip_whitespace();
                    proof {
                        lemma_ws_end(s, c);
                    }
                } else {
                    err = Some("Expected ',' or '}' in object".to_string());
                    break;
                }
            }
        }
        if let Some(m) = err {
            return Err(m);
        }
        self.consume_char('}');
        proof {
            lemma_object_model(object);
        }
        Ok(JsonValue::Object(object))
    }

    /// Advances past whitespace.
    fn skip_whitespace(&mut self)
        ensures
            final(self).input@ == old(self).input@,
            old(self).position <= final(self).position,
            final(self).position as int == ws_end(old(self).input@, old(self).position as int),
    {
        proof {
            use_type_invariant(&*self);
        }
        loop
            invariant
                self.input@ == old(self).input@,
                old(self).position <= self.position,
                ws_end(self.input@, self.position as int) == ws_end(
                    old(self).input@,
                    old(self).position as int,
                ),
            ensures
                self.input@ == old(self).input@,
                old(self).position <= self.position,
                self.position as int == ws_end(old(self).input@, old(self).position as int),
            decreases self.input@.len() - self.position,
        {
            proof {
                use_type_invariant(&*self);
            }
            match self.peek_char() {
                Some(c) => {
                    if is_whitespace(c) {
                        self.next_char();
                    } else {
                        break;
                    }
                },
                None => {
                    break;
                },
            }
        }
    }

    /// The next character, without advancing.
    fn peek_char(&self) -> (r: Option<char>)
        ensures
            r == if self.position < self.input@.len() {
                Some(self.input@[self.position as int])
            } else {
                None::<char>
            },
    {
        if self.position < self.input.len() {
            Some(self.input[self.position])
        } else {
            None
        }
    }

    /// The next character, advancing past it.
    fn next_char(&mut self) -> (r: Option<char>)
        ensures
            final(self).input@ == old(self).input@,
            old(self).position < old(self).input@.len() ==> r == Some(
                old(self).input@[old(self).position as int],
            ) && final(self).position == old(self).position + 1,
            old(self).position >= old(self).input@.len() ==> r == None::<char>
                && final(self).position == old(self).position,
    {
        proof {
            use_type_invariant(&*self);
        }
        if self.position < self.input.len() {
            let c = self.input[self.position];
            self.position += 1;
            Some(c)
        } else {
            None
        }
    }

    /// Advances past `expected` if it is the next character.
    fn consume_char(&mut self, expected: char) -> (b: bool)
        ensures
            final(self).input@ == old(self).input@,
            b == (old(self).position < old(self).input@.len() && old(self).input@[old(
                self,
            ).position as int] == expected),
            b ==> final(self).position == old(self).position + 1,
            !b ==> final(self).position == old(self).position,
    {
        if self.peek_char() == Some(expected) {
            self.next_char();
            true
        } else {
            false
        }
    }

    /// Advances past `expected` if the input continues with it; otherwise stays put.
    fn consume_str(&mut self, expected: &str) -> (b: bool)
        ensures
            final(self).input@ == old(self).input@,
            b == word_at(old(self).input@, old(self).position as int, expected@),
            b ==> final(self).position == old(self).position + expected@.len(),
            !b ==> final(self).position == old(self).position,
    {
        proof {
            use_type_invariant(&*self);
        }
        let ghost s = self.input@;
        let start = self.position;
        let w = chars_of(expected);
        let mut i: usize = 0;
        assert(s.subrange(start as int, start as int) =~= w@.take(0));
        assert(w@.take(w@.len() as int) =~= w@);
        let mut matched = true;
        while i < w.len()
            invariant_except_break
                w@ == expected@,
                self.input@ == s,
                self.position == start + i,
                i <= w@.len(),
                start + i <= s.len(),
                s.subrange(start as int, self.position as int) == w@.take(i as int),
                w@.take(w@.len() as int) == w@,
                matched,
            ensures
                w@ == expected@,
                self.input@ == s,
                matched ==> self.position == start + w@.len() && word_at(s, start as int, w@),
                !matched ==> self.position == start && !word_at(s, start as int, w@),
            decreases w.len() - i,
        {
            proof {
                use_type_invariant(&*self);
            }
            if self.peek_char() != Some(w[i]) {
                proof {
                    if word_at(s, start as int, w@) {
                        assert(s[start + i] == s.subrange(start as int, start + w@.len())[i as int]);
                    }
                }
                self.position = start;
                matched = false;
                break;
            }
            self.next_char();
            i += 1;
            assert(s.subrange(start as int, self.position as int) =~= w@.take(i as int));
        }
        matched
    }
}

/// The indented text of `v` with its closing bracket at `ind`: each element or
/// entry on a line of its own, two spaces further in, separated by commas; entries
/// in the order they are held; numbers as they are held.
pub open spec fn pretty(v: Json, ind: nat) -> Seq<char>
    decreases v, 0int,
{
    match v {
        Json::Null => "null"@,
        Json::Bool(b) => if b {
            "true"@
        } else {
            "false"@
        },
        Json::Number(n) => n,
        Json::Str(s) => seq!['"'] + s + seq!['"'],
        Json::Array(a) => if a.len() == 0 {
            "[]"@
        } else {
            "[\n"@ + pretty_items(a, ind) + seq!['\n'] + spaces(ind) + "]"@
        },
        Json::Object(o) => if o.len() == 0 {
            "{}"@
        } else {
            "{\n"@ + pretty_entries(o, ind) + seq!['\n'] + spaces(ind) + "}"@
        },
    }
}

/// The elements `a`, each on its own line, joined by `,` and a line break.
pub open spec fn pretty_items(a: Seq<Json>, ind: nat) -> Seq<char>
    decreases a, 0int,
{
    if a.len() == 0 {
        Seq::empty()
    } else {
        spaces(ind + 2) + pretty(a[0], ind + 2) + (if a.len() > 1 {
            ",\n"@ + pretty_items(a.subrange(1, a.len() as int), ind)
        } else {
            Seq::empty()
        })
    }
}

/// The entries `o`, each on its own line, joined by `,` and a line break.
pub open spec fn pretty_entries(o: Seq<(Seq<char>, Json)>, ind: nat) -> Seq<char>
    decreases o, 0int,
{
    if o.len() == 0 {
        Seq::empty()
    } else {
        spaces(ind + 2) + seq!['"'] + o[0].0 + seq!['"'] + ": "@ + pretty(o[0].1, ind + 2) + (
        if o.len() > 1 {
            ",\n"@ + pretty_entries(o.subrange(1, o.len() as int), ind)
        } else {
            Seq::empty()
        })
    }
}

/// The text of `value` laid out with its closing bracket at `indent` spaces.
pub fn pretty_print_json(value: &JsonValue, indent: usize) -> (s: String)
    requires
        indent + 2 * json_depth(value.model()) <= usize::MAX,
    ensures
        s@ == pretty(value.model(), indent as nat),
{
    let mut out: Vec<char> = Vec::new();
    pretty_into(value, indent, &mut out);
    assert(out@ =~= Seq::<char>::empty() + pretty(value.model(), indent as nat));
    string_from_chars(out.as_slice())
}

/// Appends the indented text of `v` to `out`.
#[verifier::rlimit(40)]
fn pretty_into(v: &JsonValue, ind: usize, out: &mut Vec<char>)
    requires
        ind + 2 * json_depth(v.model()) <= usize::MAX,
    ensures
        final(out)@ == old(out)@ + pretty(v.model(), ind as nat),
    decreases v,
{
    match v {
        JsonValue::Null => {
            append_str(out, "null");
        },
        JsonValue::Bool(b) => {
            if *b {
                append_str(out, "true");
            } else {
                append_str(out, "false");
            }
        },
        JsonValue::Number(n) => {
            append_str(out, n.as_str());
        },
        JsonValue::String(s) => {
            let ghost start = out@;
            out.push('"');
            append_str(out, s.as_str());
            out.push('"');
            assert(out@ =~= start + (seq!['"'] + s@ + seq!['"']));
        },
        JsonValue::Array(a) => {
            proof {
                lemma_array_model(*a);
            }
            let ghost ms = models(a@);
            if a.len() == 0 {
                append_str(out, "[]");
                return;
            }
            let ghost start = out@;
            append_str(out, "[\n");
            let ghost after_open = out@;
            let mut i: usize = 0;
            assert(ms.subrange(0, ms.len() as int) =~= ms);
            while i < a.len()
                invariant
                    i <= a@.len(),
                    ms == models(a@),
                    *v == JsonValue::Array(*a),
                    a@.len() > 0,
                    ind + 2 * json_depth(Json::Array(ms)) <= usize::MAX,
                    out@ + (if i == 0 {
                        pretty_items(ms, ind as nat)
                    } else if i < ms.len() {
                        ",\n"@ + pretty_items(ms.subrange(i as int, ms.len() as int), ind as nat)
                    } else {
                        Seq::empty()
                    }) == after_open + pretty_items(ms, ind as nat),
                decreases a.len() - i,
            {
                let ghost rest = ms.subrange(i as int, ms.len() as int);
                assert(rest[0] == ms[i as int]);
                assert(rest.subrange(1, rest.len() as int) =~= ms.subrange(i + 1, ms.len() as int));
                proof {
                    lemma_items_depth(ms, i as int);
                    assert(decreases_to!(*v => (*v)->Array_0));
                    assert(decreases_to!(*a => a@));
                    assert(decreases_to!(a@ => a@[i as int]));
                }
                let ghost o0 = out@;
                assert(ms.subrange(0, ms.len() as int) =~= ms);
                if i > 0 {
                    append_str(out, ",\n");
                    assert(out@ + pretty_items(rest, ind as nat) =~= o0 + (",\n"@ + pretty_items(rest, ind as nat)));
                }
                let ghost o1 = out@;
                assert(o1 + pretty_items(rest, ind as nat) == after_open + pretty_items(ms, ind as nat));
                append_spaces(out, ind + 2);
                pretty_into(&a[i], ind + 2, out);
                i += 1;
                proof {
                    if i < ms.len() {
                        assert(o1 + pretty_items(rest, ind as nat) =~= out@ + (",\n"@ + pretty_items(
                            ms.subrange(i as int, ms.len() as int),
                            ind as nat,
                        )));
                    } else {
                        assert(o1 + pretty_items(rest, ind as nat) =~= out@ + Seq::<char>::empty());
                    }
                }
            }
            assert(out@ + Seq::<char>::empty() =~= out@);
            assert(out@ == after_open + pretty_items(ms, ind as nat));
            append_str(out, "\n");
            append_spaces(out, ind);
            append_str(out, "]");
            proof {
                reveal_strlit("\n");
            }
            assert(out@ =~= start + ("[\n"@ + pretty_items(ms, ind as nat) + seq!['\n'] + spaces(ind as nat) + "]"@));
        },
        JsonValue::Object(o) => {
            proof {
                lemma_object_model(*o);
            }
            let ghost ms = entry_models(o@);
            if o.len() == 0 {
                append_str(out, "{}");
                return;
            }
            let ghost start = out@;
            append_str(out, "{\n");
            let ghost after_open = out@;
            let mut i: usize = 0;
            assert(ms.subrange(0, ms.len() as int) =~= ms);
            while i < o.len()
                invariant
                    i <= o@.len(),
                    ms == entry_models(o@),
                    *v == JsonValue::Object(*o),
                    o@.len() > 0,
                    ind + 2 * json_depth(Json::Object(ms)) <= usize::MAX,
                    out@ + (if i == 0 {
                        pretty_entries(ms, ind as nat)
                    } else if i < ms.len() {
                        ",\n"@ + pretty_entries(ms.subrange(i as int, ms.len() as int), ind as nat)
                    } else {
                        Seq::empty()
                    }) == after_open + pretty_entries(ms, ind as nat),
                decreases o.len() - i,
            {
                let ghost rest = ms.subrange(i as int, ms.len() as int);
                assert(rest[0] == ms[i as int]);
                assert(rest.subrange(1, rest.len() as int) =~= ms.subrange(i + 1, ms.len() as int));
                proof {
                    lemma_entries_depth(ms, i as int);
                    assert(decreases_to!(*v => (*v)->Object_0));
                    assert(decreases_to!(*o => o@));
                    assert(decreases_to!(o@ => o@[i as int]));
                    assert(decreases_to!(o@[i as int] => o@[i as int].1));
                }
                let ghost o0 = out@;
                assert(ms.subrange(0, ms.len() as int) =~= ms);
                if i > 0 {
                    append_str(out, ",\n");
                    assert(out@ + pretty_entries(rest, ind as nat) =~= o0 + (",\n"@ + pretty_entries(rest, ind as nat)));
                }
                let ghost o1 = out@;
                assert(o1 + pretty_entries(rest, ind as nat) == after_open + pretty_entries(ms, ind as nat));
                append_spaces(out, ind + 2);
                out.push('"');
                append_str(out, o[i].0.as_str());
                out.push('"');
                append_str(out, ": ");
                pretty_into(&o[i].1, ind + 2, out);
                i += 1;
                proof {
                    if i < ms.len() {
                        assert(o1 + pretty_entries(rest, ind as nat) =~= out@ + (",\n"@ + pretty_entries(
                            ms.subrange(i as int, ms.len() as int),
                            ind as nat,
                        )));
                    } else {
                        assert(o1 + pretty_entries(rest, ind as nat) =~= out@ + Seq::<char>::empty());
                    }
                }
            }
            assert(out@ + Seq::<char>::empty() =~= out@);
            assert(out@ == after_open + pretty_entries(ms, ind as nat));
            append_str(out, "\n");
            append_spaces(out, ind);
            append_str(out, "}");
            proof {
                reveal_strlit("\n");
            }
            assert(out@ =~= start + ("{\n"@ + pretty_entries(ms, ind as nat) + seq!['\n'] + spaces(ind as nat) + "}"@));
        },
    }
}

} // verus!
