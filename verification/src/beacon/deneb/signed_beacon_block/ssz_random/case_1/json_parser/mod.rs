//! Two JSON readers: one that splits text at top-level separators (here), and a
//! recursive-descent parser over characters (`descent`).
//!
//! The splitting reader trims its input, looks at the first character, and for an
//! array or an object cuts the inside at the commas (and colons) that are outside
//! quotes and brackets, reading each piece again. It does not unescape strings.
//! On one kind of input it cannot go on: text that is a single `"`, at the top or
//! as a piece. `split_value` says `None` there; `parse_json` requires that this
//! does not happen, and `try_parse_json` reports it.
use vstd::prelude::*;
use crate::text::{trim, trim_chars, slice_chars, chars_eq, string_from_chars, concat_str, spaces, text_less, append_str, append_spaces};
use crate::float_syntax::{is_digit, float_syntax, float_syntax_ok};
use crate::json_value::{Json, JsonValue, models, entry_models, obj_insert, lemma_array_model, lemma_object_model, insert_entry, json_depth, lemma_items_depth, lemma_entries_depth};

pub mod descent;
pub mod entry_order;

verus! {

broadcast use vstd::string::group_string_axioms;

/// The state of the scan that cuts the inside of an array: the pieces cut so far,
/// the piece being read, the bracket depth, and whether a quote is open.
pub type ArrayScan = (Seq<Seq<char>>, Seq<char>, int, bool);

/// One character of the array scan.
pub open spec fn array_step(st: ArrayScan, ch: char) -> ArrayScan {
    let (done, cur, depth, ins) = st;
    if ch == '"' {
        (done, cur.push(ch), depth, !ins)
    } else if (ch == '[' || ch == '{') && !ins {
        (done, cur.push(ch), depth + 1, ins)
    } else if (ch == ']' || ch == '}') && !ins {
        (done, cur.push(ch), depth - 1, ins)
    } else if ch == ',' && !ins && depth == 0 {
        (done.push(cur), Seq::empty(), depth, ins)
    } else {
        (done, cur.push(ch), depth, ins)
    }
}

/// The array scan over `c`.
pub open spec fn array_scan(c: Seq<char>) -> ArrayScan
    decreases c.len(),
{
    if c.len() == 0 {
        (Seq::empty(), Seq::empty(), 0, false)
    } else {
        array_step(array_scan(c.drop_last()), c.last())
    }
}

/// The pieces of the inside `c` of an array: those cut at top-level commas, and
/// the last one when it is not empty.
pub open spec fn array_pieces(c: Seq<char>) -> Seq<Seq<char>> {
    let st = array_scan(c);
    if st.1.len() > 0 {
        st.0.push(st.1)
    } else {
        st.0
    }
}

/// The state of the scan that cuts the inside of an object: the key/value pairs
/// cut so far, the key and the value being read, whether the key is being read,
/// the bracket depth, and whether a quote is open.
pub type ObjectScan = (Seq<(Seq<char>, Seq<char>)>, Seq<char>, Seq<char>, bool, int, bool);

/// One character of the object scan.
pub open spec fn object_step(st: ObjectScan, ch: char) -> ObjectScan {
    let (pairs, key, val, pk, depth, ins) = st;
    if ch == '"' {
        if pk {
            (pairs, key.push(ch), val, pk, depth, !ins)
        } else {
            (pairs, key, val.push(ch), pk, depth, !ins)
        }
    } else if ch == ':' && !ins && pk && depth == 0 {
        (pairs, key, val, false, depth, ins)
    } else if ch == ',' && !ins && !pk && depth == 0 {
        (pairs.push((key, val)), Seq::empty(), Seq::empty(), true, depth, ins)
    } else {
        let d = if (ch == '[' || ch == '{') && !ins {
            depth + 1
        } else if (ch == ']' || ch == '}') && !ins {
            depth - 1
        } else {
            depth
        };
        if pk {
            (pairs, key.push(ch), val, pk, d, ins)
        } else {
            (pairs, key, val.push(ch), pk, d, ins)
        }
    }
}

/// The object scan over `c`.
pub open spec fn object_scan(c: Seq<char>) -> ObjectScan
    decreases c.len(),
{
    if c.len() == 0 {
        (Seq::empty(), Seq::empty(), Seq::empty(), true, 0, false)
    } else {
        object_step(object_scan(c.drop_last()), c.last())
    }
}

/// The key/value pairs of the inside `c` of an object: those cut at top-level
/// commas, and the last one when neither its key nor its value is empty.
pub open spec fn object_pairs(c: Seq<char>) -> Seq<(Seq<char>, Seq<char>)> {
    let st = object_scan(c);
    if st.1.len() > 0 && st.2.len() > 0 {
        st.0.push((st.1, st.2))
    } else {
        st.0
    }
}

/// What the splitting reader gives for the text `s`: `None` where it cannot go
/// on, else the value or the error message. `fuel` bounds the nesting it follows;
/// the length of the text always suffices.
pub open spec fn split_value(s: Seq<char>, fuel: nat) -> Option<Result<Json, Seq<char>>>
    decreases fuel, 2int, 0int,
{
    let t = trim(s);
    if t.len() == 0 {
        Some(Err("Empty input"@))
    } else if t[0] == 'n' {
        Some(
            if t == "null"@ {
                Ok(Json::Null)
            } else {
                Err("Invalid null value"@)
            },
        )
    } else if t[0] == 't' || t[0] == 'f' {
        Some(
            if t == "true"@ {
                Ok(Json::Bool(true))
            } else if t == "false"@ {
                Ok(Json::Bool(false))
            } else {
                Err("Invalid boolean value"@)
            },
        )
    } else if t[0] == '"' {
        if t.last() == '"' {
            if t.len() < 2 {
                None
            } else {
                Some(Ok(Json::Str(t.subrange(1, t.len() - 1))))
            }
        } else {
            Some(Err("Invalid string format"@))
        }
    } else if t[0] == '[' {
        split_array(t, fuel)
    } else if t[0] == '{' {
        split_object(t, fuel)
    } else if is_digit(t[0]) || t[0] == '-' {
        Some(
            if float_syntax(t) {
                Ok(Json::Number(t))
            } else {
                Err("Invalid number format"@)
            },
        )
    } else {
        Some(Err("Unexpected character: "@ + seq![t[0]]))
    }
}

/// The splitting reader on text `t` that starts with `[`.
pub open spec fn split_array(t: Seq<char>, fuel: nat) -> Option<Result<Json, Seq<char>>>
    decreases fuel, 1int, 0int,
{
    if t.len() == 0 || t.last() != ']' {
        Some(Err("Invalid array format"@))
    } else {
        let c = trim(t.subrange(1, t.len() - 1));
        if c.len() == 0 {
            Some(Ok(Json::Array(Seq::empty())))
        } else if fuel == 0 {
            None
        } else {
            match split_items(array_pieces(c), (fuel - 1) as nat) {
                None => None,
                Some(Err(e)) => Some(Err(e)),
                Some(Ok(items)) => Some(Ok(Json::Array(items))),
            }
        }
    }
}

/// The pieces `ps` read in order, stopping at the first that fails.
pub open spec fn split_items(ps: Seq<Seq<char>>, fuel: nat) -> Option<Result<Seq<Json>, Seq<char>>>
    decreases fuel, 3int, ps.len(),
{
    if ps.len() == 0 {
        Some(Ok(Seq::empty()))
    } else {
        match split_value(ps[0], fuel) {
            None => None,
            Some(Err(e)) => Some(Err(e)),
            Some(Ok(v)) => match split_items(ps.drop_first(), fuel) {
                None => None,
                Some(Err(e)) => Some(Err(e)),
                Some(Ok(rest)) => Some(Ok(seq![v] + rest)),
            },
        }
    }
}

/// The splitting reader on text `t` that starts with `{`.
pub open spec fn split_object(t: Seq<char>, fuel: nat) -> Option<Result<Json, Seq<char>>>
    decreases fuel, 1int, 0int,
{
    if t.len() == 0 || t.last() != '}' {
        Some(Err("Invalid object format"@))
    } else {
        let c = trim(t.subrange(1, t.len() - 1));
        if c.len() == 0 {
            Some(Ok(Json::Object(Seq::empty())))
        } else if fuel == 0 {
            None
        } else {
            match split_entries(object_pairs(c), (fuel - 1) as nat, Seq::empty()) {
                None => None,
                Some(Err(e)) => Some(Err(e)),
                Some(Ok(entries)) => Some(Ok(Json::Object(entries))),
            }
        }
    }
}

/// The pairs `ps` read in order into the entries `acc`, stopping at the first that
/// fails: its key, then its value, then the key must be a string.
pub open spec fn split_entries(
    ps: Seq<(Seq<char>, Seq<char>)>,
    fuel: nat,
    acc: Seq<(Seq<char>, Json)>,
) -> Option<Result<Seq<(Seq<char>, Json)>, Seq<char>>>
    decreases fuel, 3int, ps.len(),
{
    if ps.len() == 0 {
        Some(Ok(acc))
    } else {
        match split_value(ps[0].0, fuel) {
            None => None,
            Some(Err(e)) => Some(Err(e)),
            Some(Ok(k)) => match split_value(ps[0].1, fuel) {
                None => None,
                Some(Err(e)) => Some(Err(e)),
                Some(Ok(v)) => match k {
                    Json::Str(ks) => split_entries(ps.drop_first(), fuel, obj_insert(acc, ks, v)),
                    _ => Some(Err("Object keys must be strings"@)),
                },
            },
        }
    }
}

/// The view of an outcome of the splitting reader.
pub open spec fn outcome_view(r: Option<Result<JsonValue, String>>) -> Option<Result<Json, Seq<char>>> {
    match r {
        None => None,
        Some(Ok(v)) => Some(Ok(v.model())),
        Some(Err(e)) => Some(Err(e@)),
    }
}

/// What the splitting reader gives for `input`.
pub open spec fn parse_json_outcome(input: Seq<char>) -> Option<Result<Json, Seq<char>>> {
    split_value(input, input.len())
}

/// Reads `input` with the splitting reader; `None` where the reader cannot go on.
pub fn try_parse_json(input: &str) -> (r: Option<Result<JsonValue, String>>)
    requires
        input@.len() <= i32::MAX,
    ensures
        outcome_view(r) == parse_json_outcome(input@),
{
    let chars = crate::text::chars_of(input);
    read_value(chars.as_slice(), chars.len())
}

/// Reads `input` with the splitting reader.
pub fn parse_json(input: &str) -> (r: Result<JsonValue, String>)
    requires
        input@.len() <= i32::MAX,
        parse_json_outcome(input@) is Some,
    ensures
        match r {
            Ok(v) => parse_json_outcome(input@) == Some(Ok::<Json, Seq<char>>(v.model())),
            Err(e) => parse_json_outcome(input@) == Some(Err::<Json, Seq<char>>(e@)),
        },
{
    match try_parse_json(input) {
        Some(r) => r,
        None => Err(String::new()),
    }
}

/// The character sequence `w`, made of the characters of a literal.
fn literal(w: &str) -> (v: Vec<char>)
    ensures
        v@ == w@,
{
    crate::text::chars_of(w)
}

fn read_value(s: &[char], fuel: usize) -> (r: Option<Result<JsonValue, String>>)
    requires
        s@.len() <= fuel,
        fuel <= i32::MAX,
    ensures
        outcome_view(r) == split_value(s@, fuel as nat),
    decreases fuel, 2int, 0int,
{
    let t = trim_chars(s);
    proof {
        crate::text::lemma_trim_len(s@);
    }
    if t.len() == 0 {
        return Some(Err("Empty input".to_string()));
    }
    let c = t[0];
    if c == 'n' {
        let w = literal("null");
        if chars_eq(t.as_slice(), w.as_slice()) {
            Some(Ok(JsonValue::Null))
        } else {
            Some(Err("Invalid null value".to_string()))
        }
    } else if c == 't' || c == 'f' {
        let wt = literal("true");
        let wf = literal("false");
        if chars_eq(t.as_slice(), wt.as_slice()) {
            Some(Ok(JsonValue::Bool(true)))
        } else if chars_eq(t.as_slice(), wf.as_slice()) {
            Some(Ok(JsonValue::Bool(false)))
        } else {
            Some(Err("Invalid boolean value".to_string()))
        }
    } else if c == '"' {
        if t[t.len() - 1] == '"' {
            if t.len() < 2 {
                None
            } else {
                let inner = slice_chars(t.as_slice(), 1, t.len() - 1);
                Some(Ok(JsonValue::String(string_from_chars(inner.as_slice()))))
            }
        } else {
            Some(Err("Invalid string format".to_string()))
        }
    } else if c == '[' {
        read_array(t.as_slice(), fuel)
    } else if c == '{' {
        read_object(t.as_slice(), fuel)
    } else if ('0' <= c && c <= '9') || c == '-' {
        if float_syntax_ok(t.as_slice()) {
            Some(Ok(JsonValue::Number(string_from_chars(t.as_slice()))))
        } else {
            Some(Err("Invalid number format".to_string()))
        }
    } else {
        let one = vec![c];
        let cs = string_from_chars(one.as_slice());
        assert(one@ =~= seq![c]);
        Some(Err(concat_str("Unexpected character: ", cs.as_str())))
    }
}

/// Cuts the inside `c` of an array into its pieces.
fn cut_array(c: &[char]) -> (ps: Vec<Vec<char>>)
    requires
        c@.len() <= i32::MAX,
    ensures
        crate::text::views(ps@) == array_pieces(c@),
        forall|k: int| #![trigger ps@[k]] 0 <= k < ps@.len() ==> ps@[k]@.len() <= c@.len(),
{
    let mut done: Vec<Vec<char>> = Vec::new();
    let mut cur: Vec<char> = Vec::new();
    let mut depth: i32 = 0;
    let mut ins = false;
    let mut i: usize = 0;
    while i < c.len()
        invariant
            i <= c@.len(),
            c@.len() <= i32::MAX,
            (crate::text::views(done@), cur@, depth as int, ins) == array_scan(c@.take(i as int)),
            forall|k: int| #![trigger done@[k]] 0 <= k < done@.len() ==> done@[k]@.len() <= i,
            cur@.len() <= i,
            -(i as int) <= depth <= i,
        decreases c.len() - i,
    {
        let ch = c[i];
        assert(c@.take(i + 1).drop_last() =~= c@.take(i as int));
        let ghost dv = crate::text::views(done@);
        if ch == '"' {
            cur.push(ch);
            ins = !ins;
        } else if (ch == '[' || ch == '{') && !ins {
            cur.push(ch);
            depth = depth + 1;
        } else if (ch == ']' || ch == '}') && !ins {
            cur.push(ch);
            depth = depth - 1;
        } else if ch == ',' && !ins && depth == 0 {
            let piece = cur;
            done.push(piece);
            cur = Vec::new();
            assert(crate::text::views(done@) =~= dv.push(done@.last()@));
        } else {
            cur.push(ch);
        }
        i += 1;
    }
    assert(c@.take(c@.len() as int) =~= c@);
    if cur.len() > 0 {
        let ghost dv = crate::text::views(done@);
        done.push(cur);
        assert(crate::text::views(done@) =~= dv.push(done@.last()@));
    }
    done
}

fn read_array(t: &[char], fuel: usize) -> (r: Option<Result<JsonValue, String>>)
    requires
        t@.len() <= fuel,
        fuel <= i32::MAX,
        t@.len() > 0,
        t@[0] == '[',
    ensures
        outcome_view(r) == split_array(t@, fuel as nat),
    decreases fuel, 1int, 0int,
{
    if t[t.len() - 1] != ']' {
        return Some(Err("Invalid array format".to_string()));
    }
    let inner = slice_chars(t, 1, t.len() - 1);
    let c = trim_chars(inner.as_slice());
    proof {
        crate::text::lemma_trim_len(inner@);
    }
    if c.len() == 0 {
        let items: Vec<JsonValue> = Vec::new();
        proof {
            lemma_array_model(items);
            assert(models(items@) =~= Seq::<Json>::empty());
        }
        return Some(Ok(JsonValue::Array(items)));
    }
    let pieces = cut_array(c.as_slice());
    let ghost ps = crate::text::views(pieces@);
    let ghost g = (fuel - 1) as nat;
    let mut items: Vec<JsonValue> = Vec::new();
    let mut k: usize = 0;
    assert(ps.skip(0) =~= ps);
    assert(models(items@) =~= Seq::<Json>::empty());
    proof {
        match split_items(ps, g) {
            Some(Ok(rest)) => {
                assert(Seq::<Json>::empty() + rest =~= rest);
            },
            _ => {},
        }
    }
    while k < pieces.len()
        invariant
            k <= pieces@.len(),
            ps == crate::text::views(pieces@),
            ps == array_pieces(c@),
            t@.len() >= 2,
            t@.last() == ']',
            c@ == trim(t@.subrange(1, t@.len() - 1)),
            c@.len() > 0,
            g == fuel - 1,
            fuel >= 1,
            fuel <= i32::MAX,
            forall|j: int| #![trigger pieces@[j]] 0 <= j < pieces@.len() ==> pieces@[j]@.len() <= fuel - 1,
            split_items(ps, g) == match split_items(ps.skip(k as int), g) {
                Some(Ok(rest)) => Some(Ok::<Seq<Json>, Seq<char>>(models(items@) + rest)),
                other => other,
            },
        decreases pieces.len() - k,
    {
        assert(ps.skip(k as int)[0] == ps[k as int]);
        assert(ps.skip(k as int).drop_first() =~= ps.skip(k + 1));
        let r = read_value(pieces[k].as_slice(), fuel - 1);
        match r {
            None => {
                return None;
            },
            Some(Err(e)) => {
                return Some(Err(e));
            },
            Some(Ok(v)) => {
                let ghost before = models(items@);
                let ghost vm = v.model();
                items.push(v);
                assert(models(items@) =~= before.push(vm));
                proof {
                    match split_items(ps.skip(k + 1), g) {
                        Some(Ok(rest)) => {
                            assert(before + (seq![vm] + rest) =~= models(items@) + rest);
                        },
                        _ => {},
                    }
                }
            },
        }
        k += 1;
    }
    assert(ps.skip(k as int) =~= Seq::<Seq<char>>::empty());
    assert(models(items@) + Seq::<Json>::empty() =~= models(items@));
    proof {
        lemma_array_model(items);
    }
    Some(Ok(JsonValue::Array(items)))
}

/// Cuts the inside `c` of an object into its key/value pairs.
fn cut_object(c: &[char]) -> (ps: Vec<(Vec<char>, Vec<char>)>)
    requires
        c@.len() <= i32::MAX,
    ensures
        pair_char_views(ps@) == object_pairs(c@),
        forall|k: int| #![trigger ps@[k]] 0 <= k < ps@.len() ==> ps@[k].0@.len() <= c@.len() && ps@[k].1@.len() <= c@.len(),
{
    let mut pairs: Vec<(Vec<char>, Vec<char>)> = Vec::new();
    let mut key: Vec<char> = Vec::new();
    let mut val: Vec<char> = Vec::new();
    let mut pk = true;
    let mut depth: i32 = 0;
    let mut ins = false;
    let mut i: usize = 0;
    while i < c.len()
        invariant
            i <= c@.len(),
            c@.len() <= i32::MAX,
            (pair_char_views(pairs@), key@, val@, pk, depth as int, ins) == object_scan(c@.take(i as int)),
            forall|k: int| #![trigger pairs@[k]] 0 <= k < pairs@.len() ==> pairs@[k].0@.len() <= i && pairs@[k].1@.len() <= i,
            key@.len() <= i,
            val@.len() <= i,
            -(i as int) <= depth <= i,
        decreases c.len() - i,
    {
        let ch = c[i];
        assert(c@.take(i + 1).drop_last() =~= c@.take(i as int));
        let ghost pv = pair_char_views(pairs@);
        if ch == '"' {
            if pk {
                key.push(ch);
            } else {
                val.push(ch);
            }
            ins = !ins;
        } else if ch == ':' && !ins && pk && depth == 0 {
            pk = false;
        } else if ch == ',' && !ins && !pk && depth == 0 {
            let k = key;
            let v = val;
            pairs.push((k, v));
            key = Vec::new();
            val = Vec::new();
            pk = true;
            assert(pair_char_views(pairs@) =~= pv.push((pairs@.last().0@, pairs@.last().1@)));
        } else {
            if (ch == '[' || ch == '{') && !ins {
                depth = depth + 1;
            } else if (ch == ']' || ch == '}') && !ins {
                depth = depth - 1;
            }
            if pk {
                key.push(ch);
            } else {
                val.push(ch);
            }
        }
        i += 1;
    }
    assert(c@.take(c@.len() as int) =~= c@);
    if key.len() > 0 && val.len() > 0 {
        let ghost pv = pair_char_views(pairs@);
        pairs.push((key, val));
        assert(pair_char_views(pairs@) =~= pv.push((pairs@.last().0@, pairs@.last().1@)));
    }
    pairs
}

/// The views of pairs of character vectors.
pub open spec fn pair_char_views(v: Seq<(Vec<char>, Vec<char>)>) -> Seq<(Seq<char>, Seq<char>)> {
    Seq::new(v.len(), |i: int| (v[i].0@, v[i].1@))
}

fn read_object(t: &[char], fuel: usize) -> (r: Option<Result<JsonValue, String>>)
    requires
        t@.len() <= fuel,
        fuel <= i32::MAX,
        t@.len() > 0,
        t@[0] == '{',
    ensures
        outcome_view(r) == split_object(t@, fuel as nat),
    decreases fuel, 1int, 0int,
{
    if t[t.len() - 1] != '}' {
        return Some(Err("Invalid object format".to_string()));
    }
    let inner = slice_chars(t, 1, t.len() - 1);
    let c = trim_chars(inner.as_slice());
    proof {
        crate::text::lemma_trim_len(inner@);
    }
    if c.len() == 0 {
        let entries: Vec<(String, JsonValue)> = Vec::new();
        proof {
            lemma_object_model(entries);
            assert(entry_models(entries@) =~= Seq::<(Seq<char>, Json)>::empty());
        }
        return Some(Ok(JsonValue::Object(entries)));
    }
    let pairs = cut_object(c.as_slice());
    let ghost ps = pair_char_views(pairs@);
    let ghost g = (fuel - 1) as nat;
    let mut entries: Vec<(String, JsonValue)> = Vec::new();
    let mut k: usize = 0;
    assert(ps.skip(0) =~= ps);
    assert(entry_models(entries@) =~= Seq::<(Seq<char>, Json)>::empty());
    while k < pairs.len()
        invariant
            k <= pairs@.len(),
            ps == pair_char_views(pairs@),
            ps == object_pairs(c@),
            t@.len() >= 2,
            t@.last() == '}',
            c@ == trim(t@.subrange(1, t@.len() - 1)),
            c@.len() > 0,
            g == fuel - 1,
            fuel >= 1,
            fuel <= i32::MAX,
            forall|j: int| #![trigger pairs@[j]] 0 <= j < pairs@.len() ==> pairs@[j].0@.len() <= fuel - 1 && pairs@[j].1@.len() <= fuel - 1,
            split_entries(ps, g, Seq::empty()) == split_entries(ps.skip(k as int), g, entry_models(entries@)),
        decreases pairs.len() - k,
    {
        assert(ps.skip(k as int)[0] == ps[k as int]);
        assert(ps.skip(k as int).drop_first() =~= ps.skip(k + 1));
        let kr = read_value(pairs[k].0.as_slice(), fuel - 1);
        let key = match kr {
            None => {
                return None;
            },
            Some(Err(e)) => {
                return Some(Err(e));
            },
            Some(Ok(kv)) => kv,
        };
        let vr = read_value(pairs[k].1.as_slice(), fuel - 1);
        let value = match vr {
            None => {
                return None;
            },
            Some(Err(e)) => {
                return Some(Err(e));
            },
            Some(Ok(v)) => v,
        };
        match key {
            JsonValue::String(ks) => {
                insert_entry(&mut entries, ks, value);
            },
            _ => {
                return Some(Err("Object keys must be strings".to_string()));
            },
        }
        k += 1;
    }
    assert(ps.skip(k as int) =~= Seq::<(Seq<char>, Seq<char>)>::empty());
    proof {
        lemma_object_model(entries);
    }
    Some(Ok(JsonValue::Object(entries)))
}

/// Where key `o[j].0` goes among the entries `ord` (positions into `o`, in key
/// order): before the first whose key is greater, after any equal ones.
pub open spec fn insert_position(ord: Seq<int>, o: Seq<(Seq<char>, Json)>, j: int) -> int
    decreases ord.len(),
{
    if ord.len() == 0 {
        0
    } else if text_less(o[j].0, o[ord[0]].0) {
        0
    } else {
        1 + insert_position(ord.drop_first(), o, j)
    }
}

/// The positions `0..n` of the entries `o`, ordered by key as a stable sort does.
pub open spec fn key_order_upto(o: Seq<(Seq<char>, Json)>, n: nat) -> Seq<int>
    decreases n,
{
    if n == 0 {
        Seq::empty()
    } else {
        let prev = key_order_upto(o, (n - 1) as nat);
        prev.insert(insert_position(prev, o, n - 1), n - 1)
    }
}

/// The positions of the entries `o`, ordered by key.
pub open spec fn key_order(o: Seq<(Seq<char>, Json)>) -> Seq<int> {
    key_order_upto(o, o.len())
}

/// The indented text of `v`: each element or entry on a line of its own, indented
/// by `ind` more than the enclosing brackets, which sit at `cur`; object keys in
/// order; numbers as they are held.
pub open spec fn pretty(v: Json, ind: nat, cur: nat) -> Seq<char>
    decreases v, 0int,
{
    match v {
        Json::Null => "null"@,
        Json::Bool(b) => if b {
            "true"@
        } else {
            "false"@
        },
        Json::Number(n) => n,
        Json::Str(s) => seq!['"'] + s + seq!['"'],
        Json::Array(a) => if a.len() == 0 {
            "[]"@
        } else {
            "[\n"@ + pretty_items(a, ind, cur) + spaces(cur) + "]"@
        },
        Json::Object(o) => if o.len() == 0 {
            "{}"@
        } else {
            "{\n"@ + pretty_entries(o, key_order(o), ind, cur) + spaces(cur) + "}"@
        },
    }
}

/// The lines of the elements `a`.
pub open spec fn pretty_items(a: Seq<Json>, ind: nat, cur: nat) -> Seq<char>
    decreases a, 0int,
{
    if a.len() == 0 {
        Seq::empty()
    } else {
        spaces(cur) + spaces(ind) + pretty(a[0], ind, cur + ind) + (if a.len() > 1 {
            seq![',']
        } else {
            Seq::empty()
        }) + seq!['\n'] + pretty_items(a.subrange(1, a.len() as int), ind, cur)
    }
}

/// The lines of the entries of `o` at the positions `ord`, in that order.
pub open spec fn pretty_entries(o: Seq<(Seq<char>, Json)>, ord: Seq<int>, ind: nat, cur: nat) -> Seq<
    char,
>
    decreases o, ord.len(),
{
    if ord.len() == 0 {
        Seq::empty()
    } else {
        let j = ord[0];
        if 0 <= j < o.len() {
            spaces(cur) + spaces(ind) + seq!['"'] + o[j].0 + "\": "@ + pretty(o[j].1, ind, cur + ind)
                + (if ord.len() > 1 {
                seq![',']
            } else {
                Seq::empty()
            }) + seq!['\n'] + pretty_entries(o, ord.drop_first(), ind, cur)
        } else {
            Seq::empty()
        }
    }
}

/// The text of `value` laid out with `indent` spaces per level, keys sorted.
pub fn pretty_print_json(value: &JsonValue, indent: usize) -> (s: String)
    requires
        json_depth(value.model()) * indent <= usize::MAX,
    ensures
        s@ == pretty(value.model(), indent as nat, 0),
{
    let mut out: Vec<char> = Vec::new();
    pretty_into(value, indent, 0, &mut out);
    assert(out@ =~= Seq::<char>::empty() + pretty(value.model(), indent as nat, 0));
    string_from_chars(out.as_slice())
}

/// The one-line text of `v`: elements and entries separated by `", "`, entries in
/// the order held, numbers as they are held.
pub open spec fn one_line(v: Json) -> Seq<char>
    decreases v, 0int,
{
    match v {
        Json::Null => "null"@,
        Json::Bool(b) => if b {
            "true"@
        } else {
            "false"@
        },
        Json::Number(n) => n,
        Json::Str(s) => seq!['"'] + s + seq!['"'],
        Json::Array(a) => "["@ + one_line_items(a) + "]"@,
        Json::Object(o) => "{"@ + one_line_entries(o) + "}"@,
    }
}

/// The one-line texts of the elements `a`, separated by `", "`.
pub open spec fn one_line_items(a: Seq<Json>) -> Seq<char>
    decreases a, 0int,
{
    if a.len() == 0 {
        Seq::empty()
    } else {
        one_line(a[0]) + (if a.len() > 1 {
            ", "@
        } else {
            Seq::empty()
        }) + one_line_items(a.subrange(1, a.len() as int))
    }
}

/// The one-line texts `"key": value` of the entries `o`, separated by `", "`.
pub open spec fn one_line_entries(o: Seq<(Seq<char>, Json)>) -> Seq<char>
    decreases o, 0int,
{
    if o.len() == 0 {
        Seq::empty()
    } else {
        seq!['"'] + o[0].0 + "\": "@ + one_line(o[0].1) + (if o.len() > 1 {
            ", "@
        } else {
            Seq::empty()
        }) + one_line_entries(o.subrange(1, o.len() as int))
    }
}

/// The one-line text of `value`.
pub fn display_json(value: &JsonValue) -> (s: String)
    ensures
        s@ == one_line(value.model()),
{
    let mut out: Vec<char> = Vec::new();
    display_into(value, &mut out);
    assert(out@ =~= Seq::<char>::empty() + one_line(value.model()));
    string_from_chars(out.as_slice())
}

/// Appends the one-line text of `v` to `out`.
fn display_into(v: &JsonValue, out: &mut Vec<char>)
    ensures
        final(out)@ == old(out)@ + one_line(v.model()),
    decreases v,
{
    match v {
        JsonValue::Null => {
            append_str(out, "null");
        },
        JsonValue::Bool(b) => {
            if *b {
                append_str(out, "true");
            } else {
                append_str(out, "false");
            }
        },
        JsonValue::Number(n) => {
            append_str(out, n.as_str());
        },
        JsonValue::String(s) => {
            let ghost start = out@;
            out.push('"');
            append_str(out, s.as_str());
            out.push('"');
            assert(out@ =~= start + (seq!['"'] + s@ + seq!['"']));
        },
        JsonValue::Array(a) => {
            proof {
                lemma_array_model(*a);
            }
            let ghost ms = models(a@);
            let ghost start = out@;
            append_str(out, "[");
            let ghost after_open = out@;
            let mut i: usize = 0;
            assert(ms.subrange(0, ms.len() as int) =~= ms);
            while i < a.len()
                invariant
                    i <= a@.len(),
                    ms == models(a@),
                    *v == JsonValue::Array(*a),
                    out@ + one_line_items(ms.subrange(i as int, ms.len() as int)) == after_open + one_line_items(ms),
                decreases a.len() - i,
            {
                let ghost rest = ms.subrange(i as int, ms.len() as int);
                assert(rest[0] == ms[i as int]);
                assert(rest.subrange(1, rest.len() as int) =~= ms.subrange(i + 1, ms.len() as int));
                let ghost o0 = out@;
                proof {
                    assert(decreases_to!(*v => (*v)->Array_0));
                    assert((*v)->Array_0 == *a);
                    assert(decreases_to!(*a => a@));
                    assert(decreases_to!(a@ => a@[i as int]));
                    assert(decreases_to!(*v => a@[i as int]));
                }
                assert(one_line_items(rest) == one_line(rest[0]) + (if rest.len() > 1 {
                    ", "@
                } else {
                    Seq::empty()
                }) + one_line_items(rest.subrange(1, rest.len() as int)));
                assert(ms[i as int] == a@[i as int].model());
                let ghost sep: Seq<char> = if rest.len() > 1 {
                    ", "@
                } else {
                    Seq::empty()
                };
                display_into(&a[i], out);
                if i + 1 < a.len() {
                    append_str(out, ", ");
                }
                assert(out@ =~= o0 + one_line(rest[0]) + sep);
                i += 1;
                assert(o0 + one_line_items(rest) =~= out@ + one_line_items(ms.subrange(i as int, ms.len() as int)));
            }
            assert(ms.subrange(i as int, ms.len() as int) =~= Seq::<Json>::empty());
            append_str(out, "]");
            assert(out@ =~= start + ("["@ + one_line_items(ms) + "]"@));
        },
        JsonValue::Object(o) => {
            proof {
                lemma_object_model(*o);
            }
            let ghost ms = entry_models(o@);
            let ghost start = out@;
            append_str(out, "{");
            let ghost after_open = out@;
            let mut i: usize = 0;
            assert(ms.subrange(0, ms.len() as int) =~= ms);
            while i < o.len()
                invariant
                    i <= o@.len(),
                    ms == entry_models(o@),
                    *v == JsonValue::Object(*o),
                    out@ + one_line_entries(ms.subrange(i as int, ms.len() as int)) == after_open + one_line_entries(ms),
                decreases o.len() - i,
            {
                let ghost rest = ms.subrange(i as int, ms.len() as int);
                assert(rest[0] == ms[i as int]);
                assert(rest.subrange(1, rest.len() as int) =~= ms.subrange(i + 1, ms.len() as int));
                let ghost o0 = out@;
                proof {
                    assert(decreases_to!(*v => (*v)->Object_0));
                    assert((*v)->Object_0 == *o);
                    assert(decreases_to!(*o => o@));
                    assert(decreases_to!(o@ => o@[i as int]));
                    assert(decreases_to!(o@[i as int] => o@[i as int].1));
                    assert(decreases_to!(*v => o@[i as int].1));
                }
                assert(one_line_entries(rest) == seq!['"'] + rest[0].0 + "\": "@ + one_line(rest[0].1) + (
                if rest.len() > 1 {
                    ", "@
                } else {
                    Seq::empty()
                }) + one_line_entries(rest.subrange(1, rest.len() as int)));
                assert(ms[i as int] == (o@[i as int].0@, o@[i as int].1.model()));
                out.push('"');
                append_str(out, o[i].0.as_str());
                append_str(out, "\": ");
                let ghost sep: Seq<char> = if rest.len() > 1 {
                    ", "@
                } else {
                    Seq::empty()
                };
                display_into(&o[i].1, out);
                if i + 1 < o.len() {
                    append_str(out, ", ");
                }
                assert(out@ =~= o0 + (seq!['"'] + rest[0].0 + "\": "@ + one_line(rest[0].1) + sep));
                i += 1;
                assert(o0 + one_line_entries(rest) =~= out@ + one_line_entries(ms.subrange(i as int, ms.len() as int)));
            }
            assert(ms.subrange(i as int, ms.len() as int) =~= Seq::<(Seq<char>, Json)>::empty());
            append_str(out, "}");
            assert(out@ =~= start + ("{"@ + one_line_entries(ms) + "}"@));
        },
    }
}

/// Positions as integers.
pub open spec fn as_ints(s: Seq<usize>) -> Seq<int> {
    Seq::new(s.len(), |i: int| s[i] as int)
}

/// The positions of the entries `o`, ordered by key.
fn entry_order(o: &Vec<(String, JsonValue)>) -> (ord: Vec<usize>)
    ensures
        as_ints(ord@) == key_order(entry_models(o@)),
        forall|k: int| 0 <= k < ord@.len() ==> #[trigger] ord@[k] < o@.len(),
{
    let ghost m = entry_models(o@);
    let mut keys: Vec<Vec<char>> = Vec::new();
    let mut i: usize = 0;
    while i < o.len()
        invariant
            i <= o@.len(),
            m == entry_models(o@),
            keys@.len() == i,
            forall|k: int| 0 <= k < i ==> #[trigger] keys@[k]@ == m[k].0,
        decreases o.len() - i,
    {
        keys.push(crate::text::chars_of(o[i].0.as_str()));
        i += 1;
    }
    let mut ord: Vec<usize> = Vec::new();
    let mut j: usize = 0;
    while j < o.len()
        invariant
            j <= o@.len(),
            m == entry_models(o@),
            keys@.len() == o@.len(),
            forall|k: int| 0 <= k < o@.len() ==> #[trigger] keys@[k]@ == m[k].0,
            as_ints(ord@) == key_order_upto(m, j as nat),
            forall|k: int| 0 <= k < ord@.len() ==> #[trigger] ord@[k] < j,
        decreases o.len() - j,
    {
        let ghost prev = as_ints(ord@);
        let mut p: usize = 0;
        assert(prev.skip(0) =~= prev);
        while p < ord.len() && !crate::text::chars_less(keys[j].as_slice(), keys[ord[p]].as_slice())
            invariant
                p <= ord@.len(),
                j < o@.len(),
                keys@.len() == o@.len(),
                forall|k: int| 0 <= k < o@.len() ==> #[trigger] keys@[k]@ == m[k].0,
                forall|k: int| 0 <= k < ord@.len() ==> #[trigger] ord@[k] < j,
                prev == as_ints(ord@),
                insert_position(prev, m, j as int) == p + insert_position(prev.skip(p as int), m, j as int),
            decreases ord.len() - p,
        {
            assert(prev.skip(p as int)[0] == prev[p as int]);
            assert(prev.skip(p as int).drop_first() =~= prev.skip(p + 1));
            p += 1;
        }
        proof {
            if p < ord@.len() {
                assert(prev.skip(p as int)[0] == prev[p as int]);
            } else {
                assert(prev.skip(p as int) =~= Seq::<int>::empty());
            }
        }
        ord.insert(p, j);
        assert(as_ints(ord@) =~= prev.insert(p as int, j as int));
        j += 1;
    }
    ord
}

/// Appends the indented text of `v`, its brackets at `cur`, to `out`.
fn pretty_into(v: &JsonValue, ind: usize, cur: usize, out: &mut Vec<char>)
    requires
        cur + json_depth(v.model()) * ind <= usize::MAX,
    ensures
        final(out)@ == old(out)@ + pretty(v.model(), ind as nat, cur as nat),
    decreases v,
{
    match v {
        JsonValue::Null => {
            append_str(out, "null");
        },
        JsonValue::Bool(b) => {
            if *b {
                append_str(out, "true");
            } else {
                append_str(out, "false");
            }
        },
        JsonValue::Number(n) => {
            append_str(out, n.as_str());
        },
        JsonValue::String(s) => {
            let ghost start = out@;
            out.push('"');
            append_str(out, s.as_str());
            out.push('"');
            assert(out@ =~= start + (seq!['"'] + s@ + seq!['"']));
        },
        JsonValue::Array(a) => {
            proof {
                lemma_array_model(*a);
            }
            let ghost ms = models(a@);
            if a.len() == 0 {
                append_str(out, "[]");
                return;
            }
            let ghost start = out@;
            append_str(out, "[\n");
            let ghost after_open = out@;
            let mut i: usize = 0;
            assert(ms.subrange(0, ms.len() as int) =~= ms);
            while i < a.len()
                invariant
                    i <= a@.len(),
                    ms == models(a@),
                    *v == JsonValue::Array(*a),
                    a@.len() > 0,
                    cur + json_depth(Json::Array(ms)) * ind <= usize::MAX,
                    out@ + pretty_items(ms.subrange(i as int, ms.len() as int), ind as nat, cur as nat)
                        == after_open + pretty_items(ms, ind as nat, cur as nat),
                decreases a.len() - i,
            {
                let ghost rest = ms.subrange(i as int, ms.len() as int);
                assert(rest[0] == ms[i as int]);
                assert(rest.subrange(1, rest.len() as int) =~= ms.subrange(i + 1, ms.len() as int));
                proof {
                    lemma_items_depth(ms, i as int);
                    let dc = json_depth(ms[i as int]);
                    let dv = json_depth(Json::Array(ms));
                    assert(dc + 1 <= dv);
                    assert((dc + 1) * ind <= dv * ind) by (nonlinear_arith)
                        requires
                            dc + 1 <= dv,
                    ;
                    assert(dc * ind + ind == (dc + 1) * ind) by (nonlinear_arith);
                }
                let ghost o0 = out@;
                proof {
                    assert(decreases_to!(*v => (*v)->Array_0));
                    assert((*v)->Array_0 == *a);
                    assert(decreases_to!(*a => a@));
                    assert(decreases_to!(a@ => a@[i as int]));
                    assert(decreases_to!(*v => a@[i as int]));
                }
                append_spaces(out, cur);
                append_spaces(out, ind);
                pretty_into(&a[i], ind, cur + ind, out);
                if i + 1 < a.len() {
                    out.push(',');
                }
                out.push('\n');
                i += 1;
                assert(o0 + pretty_items(rest, ind as nat, cur as nat) =~= out@ + pretty_items(
                    ms.subrange(i as int, ms.len() as int),
                    ind as nat,
                    cur as nat,
                ));
            }
            assert(ms.subrange(i as int, ms.len() as int) =~= Seq::<Json>::empty());
            let ghost before_close = out@;
            append_spaces(out, cur);
            append_str(out, "]");
            assert(out@ =~= start + ("[\n"@ + pretty_items(ms, ind as nat, cur as nat) + spaces(
                cur as nat,
            ) + "]"@));
        },
        JsonValue::Object(o) => {
            proof {
                lemma_object_model(*o);
            }
            let ghost ms = entry_models(o@);
            if o.len() == 0 {
                append_str(out, "{}");
                return;
            }
            let ord = entry_order(o);
            let ghost oi = as_ints(ord@);
            let ghost start = out@;
            append_str(out, "{\n");
            let ghost after_open = out@;
            let mut k: usize = 0;
            assert(oi.skip(0) =~= oi);
            while k < ord.len()
                invariant
                    k <= ord@.len(),
                    ms == entry_models(o@),
                    *v == JsonValue::Object(*o),
                    oi == as_ints(ord@),
                    oi == key_order(ms),
                    forall|q: int| 0 <= q < ord@.len() ==> #[trigger] ord@[q] < o@.len(),
                    o@.len() > 0,
                    cur + json_depth(Json::Object(ms)) * ind <= usize::MAX,
                    out@ + pretty_entries(ms, oi.skip(k as int), ind as nat, cur as nat)
                        == after_open + pretty_entries(ms, oi, ind as nat, cur as nat),
                decreases ord.len() - k,
            {
                let j = ord[k];
                let ghost rest = oi.skip(k as int);
                assert(rest[0] == j as int);
                assert(rest.drop_first() =~= oi.skip(k + 1));
                proof {
                    lemma_entries_depth(ms, j as int);
                    let dc = json_depth(ms[j as int].1);
                    let dv = json_depth(Json::Object(ms));
                    assert(dc + 1 <= dv);
                    assert((dc + 1) * ind <= dv * ind) by (nonlinear_arith)
                        requires
                            dc + 1 <= dv,
                    ;
                    assert(dc * ind + ind == (dc + 1) * ind) by (nonlinear_arith);
                }
                let ghost o0 = out@;
                proof {
                    assert(decreases_to!(*v => (*v)->Object_0));
                    assert((*v)->Object_0 == *o);
                    assert(decreases_to!(*o => o@));
                    assert(decreases_to!(o@ => o@[j as int]));
                    assert(decreases_to!(o@[j as int] => o@[j as int].1));
                    assert(decreases_to!(*v => o@[j as int].1));
                }
                append_spaces(out, cur);
                append_spaces(out, ind);
                out.push('"');
                append_str(out, o[j].0.as_str());
                append_str(out, "\": ");
                pretty_into(&o[j].1, ind, cur + ind, out);
                if k + 1 < ord.len() {
                    out.push(',');
                }
                out.push('\n');
                k += 1;
                assert(o0 + pretty_entries(ms, rest, ind as nat, cur as nat) =~= out@ + pretty_entries(
                    ms,
                    oi.skip(k as int),
                    ind as nat,
                    cur as nat,
                ));
            }
            assert(oi.skip(k as int) =~= Seq::<int>::empty());
            append_spaces(out, cur);
            append_str(out, "}");
            assert(out@ =~= start + ("{\n"@ + pretty_entries(ms, key_order(ms), ind as nat, cur as nat)
                + spaces(cur as nat) + "}"@));
        },
    }
}

} // verus!
