//! The order of `String`'s comparison on texts, and sorted lists of texts.
use vstd::prelude::*;
use crate::text::{string_views, text_less};

verus! {

/// `a` comes before `b` in the lexicographic order of character codes, which is
/// the order of `String`'s comparison.
pub open spec fn lex_lt(a: Seq<char>, b: Seq<char>) -> bool
    decreases a.len(),
{
    if a.len() == 0 {
        b.len() > 0
    } else if b.len() == 0 {
        false
    } else if a[0] != b[0] {
        a[0] < b[0]
    } else {
        lex_lt(a.drop_first(), b.drop_first())
    }
}

/// No text comes before itself.
pub proof fn lemma_lex_irreflexive(a: Seq<char>)
    ensures
        !lex_lt(a, a),
    decreases a.len(),
{
    if a.len() > 0 {
        lemma_lex_irreflexive(a.drop_first());
    }
}

/// Of two different texts, one comes before the other.
pub proof fn lemma_lex_total(a: Seq<char>, b: Seq<char>)
    requires
        a != b,
    ensures
        lex_lt(a, b) || lex_lt(b, a),
    decreases a.len(),
{
    if a.len() == 0 {
        assert(b.len() > 0) by {
            if b.len() == 0 {
                assert(a =~= b);
            }
        }
    } else if b.len() == 0 {
    } else if a[0] != b[0] {
        assert(a[0] < b[0] || b[0] < a[0]);
    } else {
        if a.drop_first() == b.drop_first() {
            assert(a =~= b) by {
                assert(a.drop_first().len() == b.drop_first().len());
                assert(a.len() == b.len());
                assert forall|i: int| 0 <= i < a.len() implies a[i] == b[i] by {
                    if i > 0 {
                        assert(a[i] == a.drop_first()[i - 1]);
                        assert(b[i] == b.drop_first()[i - 1]);
                    }
                }
            }
        }
        lemma_lex_total(a.drop_first(), b.drop_first());
    }
}

/// `a` comes before `b` comparing character codes one by one, a proper prefix
/// first.
pub open spec fn code_lt(a: Seq<char>, b: Seq<char>) -> bool
    decreases a.len(),
{
    if a.len() == 0 {
        b.len() > 0
    } else if b.len() == 0 {
        false
    } else if a[0] != b[0] {
        (a[0] as u32) < (b[0] as u32)
    } else {
        code_lt(a.drop_first(), b.drop_first())
    }
}

/// `text_less`, the order that `chars_less` decides, is `code_lt`.
pub proof fn lemma_text_less_code(a: Seq<char>, b: Seq<char>)
    ensures
        text_less(a, b) == code_lt(a, b),
    decreases a.len(),
{
    if a.len() == 0 {
        if b.len() > 0 {
            assert(a.take(0) =~= b.take(0));
        }
    } else if b.len() == 0 {
        if text_less(a, b) {
            let i = choose|i: int|
                0 <= i <= a.len() && i <= b.len() && a.take(i) == b.take(i) && ((i == a.len() && i < b.len()) || (
                i < a.len() && i < b.len() && (a[i] as u32) < (b[i] as u32)));
            assert(i == 0);
        }
    } else if a[0] != b[0] {
        if text_less(a, b) {
            let i = choose|i: int|
                0 <= i <= a.len() && i <= b.len() && a.take(i) == b.take(i) && ((i == a.len() && i < b.len()) || (
                i < a.len() && i < b.len() && (a[i] as u32) < (b[i] as u32)));
            if i > 0 {
                assert(a.take(i)[0] == b.take(i)[0]);
            }
            assert(i == 0);
        }
        if (a[0] as u32) < (b[0] as u32) {
            assert(a.take(0) =~= b.take(0));
        }
    } else {
        let a1 = a.drop_first();
        let b1 = b.drop_first();
        lemma_text_less_code(a1, b1);
        if text_less(a, b) {
            let i = choose|i: int|
                0 <= i <= a.len() && i <= b.len() && a.take(i) == b.take(i) && ((i == a.len() && i < b.len()) || (
                i < a.len() && i < b.len() && (a[i] as u32) < (b[i] as u32)));
            assert(i > 0);
            assert(a1.take(i - 1) =~= a.take(i).drop_first());
            assert(b1.take(i - 1) =~= b.take(i).drop_first());
            if i < a.len() && i < b.len() {
                assert(a1[i - 1] == a[i]);
                assert(b1[i - 1] == b[i]);
            }
            assert(text_less(a1, b1));
        }
        if text_less(a1, b1) {
            let j = choose|j: int|
                0 <= j <= a1.len() && j <= b1.len() && a1.take(j) == b1.take(j) && ((j == a1.len() && j < b1.len())
                    || (j < a1.len() && j < b1.len() && (a1[j] as u32) < (b1[j] as u32)));
            assert(a.take(j + 1) =~= seq![a[0]] + a1.take(j));
            assert(b.take(j + 1) =~= seq![b[0]] + b1.take(j));
            if j < a1.len() && j < b1.len() {
                assert(a1[j] == a[j + 1]);
                assert(b1[j] == b[j + 1]);
            }
            assert(text_less(a, b));
        }
    }
}

/// `code_lt` is irreflexive.
pub proof fn lemma_code_irreflexive(a: Seq<char>)
    ensures
        !code_lt(a, a),
    decreases a.len(),
{
    if a.len() > 0 {
        lemma_code_irreflexive(a.drop_first());
    }
}

/// `code_lt` is transitive.
pub proof fn lemma_code_transitive(a: Seq<char>, b: Seq<char>, c: Seq<char>)
    requires
        code_lt(a, b),
        code_lt(b, c),
    ensures
        code_lt(a, c),
    decreases a.len(),
{
    if a.len() > 0 && b.len() > 0 && c.len() > 0 && a[0] == b[0] && b[0] == c[0] {
        lemma_code_transitive(a.drop_first(), b.drop_first(), c.drop_first());
    }
}

/// Of two different texts, one comes before the other under `code_lt`.
pub proof fn lemma_code_total(a: Seq<char>, b: Seq<char>)
    requires
        a != b,
    ensures
        code_lt(a, b) || code_lt(b, a),
    decreases a.len(),
{
    if a.len() == 0 {
        assert(b.len() > 0) by {
            if b.len() == 0 {
                assert(a =~= b);
            }
        }
    } else if b.len() == 0 {
    } else if a[0] != b[0] {
        let x = a[0];
        let y = b[0];
        if (x as u32) == (y as u32) {
            vstd::utf8::char_u32_cast(x, x as u32);
            vstd::utf8::char_u32_cast(y, y as u32);
        }
    } else {
        if a.drop_first() == b.drop_first() {
            assert(a =~= b) by {
                assert(a.drop_first().len() == b.drop_first().len());
                assert(a.len() == b.len());
                assert forall|i: int| 0 <= i < a.len() implies a[i] == b[i] by {
                    if i > 0 {
                        assert(a[i] == a.drop_first()[i - 1]);
                        assert(b[i] == b.drop_first()[i - 1]);
                    }
                }
            }
        }
        lemma_code_total(a.drop_first(), b.drop_first());
    }
}

/// `text_less` is a strict total order: irreflexive, transitive, and total on
/// different texts.
pub proof fn lemma_text_less_order(a: Seq<char>, b: Seq<char>, c: Seq<char>)
    ensures
        !text_less(a, a),
        text_less(a, b) && text_less(b, c) ==> text_less(a, c),
        a != b ==> text_less(a, b) || text_less(b, a),
{
    lemma_text_less_code(a, a);
    lemma_text_less_code(a, b);
    lemma_text_less_code(b, a);
    lemma_text_less_code(b, c);
    lemma_text_less_code(a, c);
    lemma_code_irreflexive(a);
    if code_lt(a, b) && code_lt(b, c) {
        lemma_code_transitive(a, b, c);
    }
    if a != b {
        lemma_code_total(a, b);
    }
}

/// The order is transitive.
pub proof fn lemma_lex_transitive(a: Seq<char>, b: Seq<char>, c: Seq<char>)
    requires
        lex_lt(a, b),
        lex_lt(b, c),
    ensures
        lex_lt(a, c),
    decreases a.len(),
{
    if a.len() > 0 && b.len() > 0 && c.len() > 0 && a[0] == b[0] && b[0] == c[0] {
        lemma_lex_transitive(a.drop_first(), b.drop_first(), c.drop_first());
    }
}

/// Whether `a` comes before `b` in the order of `String`'s comparison.
pub fn text_before(a: &[char], b: &[char]) -> (r: bool)
    ensures
        r == lex_lt(a@, b@),
{
    let mut i: usize = 0;
    assert(a@.skip(0) =~= a@);
    assert(b@.skip(0) =~= b@);
    while i < a.len() && i < b.len() && a[i] == b[i]
        invariant
            i <= a@.len(),
            i <= b@.len(),
            lex_lt(a@, b@) == lex_lt(a@.skip(i as int), b@.skip(i as int)),
        decreases a.len() - i,
    {
        assert(a@.skip(i as int).drop_first() =~= a@.skip(i + 1));
        assert(b@.skip(i as int).drop_first() =~= b@.skip(i + 1));
        i += 1;
    }
    if i == a.len() {
        i < b.len()
    } else if i == b.len() {
        false
    } else {
        a[i] < b[i]
    }
}

/// Each text of `s` comes before the next ones: `s` is sorted without repeats.
pub open spec fn strictly_sorted(s: Seq<Seq<char>>) -> bool {
    forall|i: int, j: int| 0 <= i < j < s.len() ==> lex_lt(#[trigger] s[i], #[trigger] s[j])
}

/// The texts of `v` sorted, each once.
pub fn sorted_unique(v: &Vec<String>) -> (r: Vec<String>)
    ensures
        strictly_sorted(string_views(r@)),
        forall|t: Seq<char>| #[trigger] string_views(r@).contains(t) <==> string_views(v@).contains(t),
{
    let ghost src = string_views(v@);
    let mut out: Vec<String> = Vec::new();
    let mut i: usize = 0;
    while i < v.len()
        invariant
            i <= v@.len(),
            src == string_views(v@),
            strictly_sorted(string_views(out@)),
            forall|t: Seq<char>| #[trigger] string_views(out@).contains(t) <==> src.take(i as int).contains(t),
        decreases v.len() - i,
    {
        let x = crate::text::chars_of(v[i].as_str());
        let ghost xv = v@[i as int]@;
        let ghost o = string_views(out@);
        let mut p: usize = 0;
        while p < out.len() && text_before(crate::text::chars_of(out[p].as_str()).as_slice(), x.as_slice())
            invariant
                p <= out@.len(),
                o == string_views(out@),
                x@ == xv,
                forall|k: int| 0 <= k < p ==> lex_lt(#[trigger] o[k], xv),
            decreases out.len() - p,
        {
            p += 1;
        }
        proof {
            let s1 = src.take(i + 1);
            let s0 = src.take(i as int);
            assert(s1 =~= s0.push(xv));
            assert forall|t: Seq<char>| s1.contains(t) <==> (s0.contains(t) || t == xv) by {
                if s1.contains(t) {
                    let k = choose|k: int| 0 <= k < s1.len() && s1[k] == t;
                    if k < i {
                        assert(s0[k] == t);
                    }
                }
                if s0.contains(t) {
                    let k = choose|k: int| 0 <= k < s0.len() && s0[k] == t;
                    assert(s1[k] == t);
                }
                if t == xv {
                    assert(s1[i as int] == t);
                }
            }
        }
        if p < out.len() && crate::text::str_eq(out[p].as_str(), v[i].as_str()) {
            assert(o[p as int] == xv);
            assert(string_views(out@).contains(xv));
        } else {
            proof {
                if p < o.len() {
                    lemma_lex_total(o[p as int], xv);
                }
            }
            let item = v[i].clone();
            out.insert(p, item);
            proof {
                let n = string_views(out@);
                assert(n =~= o.take(p as int).push(xv) + o.skip(p as int));
                assert(n.len() == o.len() + 1);
                assert forall|a: int, b: int| 0 <= a < b < n.len() implies lex_lt(#[trigger] n[a], #[trigger] n[b]) by {
                    if b < p {
                        assert(n[a] == o[a] && n[b] == o[b]);
                    } else if b == p {
                        assert(n[a] == o[a] && n[b] == xv);
                    } else if a < p {
                        assert(n[a] == o[a] && n[b] == o[b - 1]);
                        assert(lex_lt(o[a], xv));
                        assert(lex_lt(xv, o[p as int]));
                        lemma_lex_transitive(o[a], xv, o[p as int]);
                        if b - 1 > p {
                            lemma_lex_transitive(o[a], o[p as int], o[b - 1]);
                        }
                    } else if a == p {
                        assert(n[a] == xv && n[b] == o[b - 1]);
                        if b - 1 > p {
                            lemma_lex_transitive(xv, o[p as int], o[b - 1]);
                        }
                    } else {
                        assert(n[a] == o[a - 1] && n[b] == o[b - 1]);
                    }
                }
                assert forall|t: Seq<char>| #[trigger] n.contains(t) <==> (o.contains(t) || t == xv) by {
                    if n.contains(t) {
                        let k = choose|k: int| 0 <= k < n.len() && n[k] == t;
                        if k < p {
                            assert(o[k] == t);
                        } else if k > p {
                            assert(o[k - 1] == t);
                        }
                    }
                    if o.contains(t) {
                        let k = choose|k: int| 0 <= k < o.len() && o[k] == t;
                        if k < p {
                            assert(n[k] == t);
                        } else {
                            assert(n[k + 1] == t);
                        }
                    }
                    if t == xv {
                        assert(n[p as int] == t);
                    }
                }
            }
        }
        i += 1;
    }
    assert(src.take(v@.len() as int) =~= src);
    out
}

} // verus!
