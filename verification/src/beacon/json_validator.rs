//! Facts about a JSON document: how many keys it has in all, how deeply it nests,
//! and what kind of value it is.
//!
//! The text is decoded with `serde_json` (see `json_text`).
use vstd::prelude::*;
use crate::json_value::{Json, JsonValue, models, entry_models, lemma_array_model, lemma_object_model};
use crate::json_text::{decoded_json, decode_json};

verus! {

broadcast use vstd::string::group_string_axioms;

/// The number of keys in `v` that hold something other than an object, counting
/// those of nested objects and of objects inside arrays: a key whose value is an
/// object counts through that object's keys instead.
pub open spec fn key_count(v: Json) -> nat
    decreases v, 0int,
{
    match v {
        Json::Array(a) => items_key_count(a),
        Json::Object(o) => entries_key_count(o),
        _ => 0,
    }
}

/// The keys counted for one entry whose value is `v`.
pub open spec fn entry_key_count(v: Json) -> nat
    decreases v, 1int,
{
    match v {
        Json::Object(_) => key_count(v),
        _ => 1 + key_count(v),
    }
}

/// The keys in the values `a`.
pub open spec fn items_key_count(a: Seq<Json>) -> nat
    decreases a, 0int,
{
    if a.len() == 0 {
        0
    } else {
        key_count(a[0]) + items_key_count(a.subrange(1, a.len() as int))
    }
}

/// The keys counted for the entries `o`.
pub open spec fn entries_key_count(o: Seq<(Seq<char>, Json)>) -> nat
    decreases o, 0int,
{
    if o.len() == 0 {
        0
    } else {
        entry_key_count(o[0].1) + entries_key_count(o.subrange(1, o.len() as int))
    }
}

/// The nesting depth of `v`: 0 for a scalar, else one more than the deepest
/// element or value (so 1 for an empty array or object).
pub open spec fn nesting(v: Json) -> nat
    decreases v, 0int,
{
    match v {
        Json::Array(a) => 1 + items_nesting(a),
        Json::Object(o) => 1 + entries_nesting(o),
        _ => 0,
    }
}

/// The greatest nesting among the values `a`, 0 when there are none.
pub open spec fn items_nesting(a: Seq<Json>) -> nat
    decreases a, 0int,
{
    if a.len() == 0 {
        0
    } else {
        let d = nesting(a[0]);
        let r = items_nesting(a.subrange(1, a.len() as int));
        if d > r {
            d
        } else {
            r
        }
    }
}

/// The greatest nesting among the values of the entries `o`, 0 when there are none.
pub open spec fn entries_nesting(o: Seq<(Seq<char>, Json)>) -> nat
    decreases o, 0int,
{
    if o.len() == 0 {
        0
    } else {
        let d = nesting(o[0].1);
        let r = entries_nesting(o.subrange(1, o.len() as int));
        if d > r {
            d
        } else {
            r
        }
    }
}

/// The name of the kind of `v`.
pub open spec fn kind_name(v: Json) -> Seq<char> {
    match v {
        Json::Null => "null"@,
        Json::Bool(_) => "boolean"@,
        Json::Number(_) => "number"@,
        Json::Str(_) => "string"@,
        Json::Array(_) => "array"@,
        Json::Object(_) => "object"@,
    }
}

/// The facts gathered about a document.
#[derive(Debug, Clone)]
pub struct ValidationDetails {
    pub is_valid: bool,
    pub total_keys: usize,
    pub depth: usize,
    pub data_type: String,
}

/// Decides and describes documents.
pub struct JsonValidator;

impl JsonValidator {
    /// The document in `json_str`, or the decoder's error.
    pub fn validate_string(json_str: &str) -> (r: Result<JsonValue, String>)
        ensures
            match decoded_json(json_str@) {
                Ok(v) => r matches Ok(x) && x.model() == v,
                Err(e) => r matches Err(m) && m@ == e,
            },
    {
        decode_json(json_str)
    }

    /// Whether `json_str` is a JSON document.
    pub fn is_valid(json_str: &str) -> (b: bool)
        ensures
            b == decoded_json(json_str@) is Ok,
    {
        decode_json(json_str).is_ok()
    }

    /// The facts about the document in `json_str`, or the decoder's error. The
    /// counts must fit in a `usize`; `checked_validation_details` tests that.
    pub fn get_validation_details(json_str: &str) -> (r: Result<ValidationDetails, String>)
        requires
            decoded_json(json_str@) matches Ok(v) ==> key_count(v) <= usize::MAX && nesting(v) <= usize::MAX,
        ensures
            match decoded_json(json_str@) {
                Err(e) => r matches Err(m) && m@ == e,
                Ok(v) => r matches Ok(d) && d.is_valid && d.total_keys == key_count(v)
                    && d.depth == nesting(v) && d.data_type@ == kind_name(v),
            },
    {
        match decode_json(json_str) {
            Err(e) => Err(e),
            Ok(v) => Ok(
                ValidationDetails {
                    is_valid: true,
                    total_keys: count_keys(&v),
                    depth: calculate_depth(&v),
                    data_type: get_root_type(&v),
                },
            ),
        }
    }

    /// `get_validation_details`, or `None` when the document's counts do not fit
    /// in a `usize`.
    pub fn checked_validation_details(json_str: &str) -> (r: Option<Result<ValidationDetails, String>>)
        ensures
            match decoded_json(json_str@) {
                Err(e) => r matches Some(Err(m)) && m@ == e,
                Ok(v) => if key_count(v) <= usize::MAX && nesting(v) <= usize::MAX {
                    r matches Some(Ok(d)) && d.is_valid && d.total_keys == key_count(v)
                        && d.depth == nesting(v) && d.data_type@ == kind_name(v)
                } else {
                    r is None
                },
            },
    {
        match decode_json(json_str) {
            Err(_) => {},
            Ok(v) => {
                if checked_count_keys(&v).is_none() || checked_depth(&v).is_none() {
                    return None;
                }
            },
        }
        Some(Self::get_validation_details(json_str))
    }
}

/// The number of keys in `value`, counting those of nested objects.
pub fn count_keys(value: &JsonValue) -> (n: usize)
    requires
        key_count(value.model()) <= usize::MAX,
    ensures
        n == key_count(value.model()),
    decreases value,
{
    match value {
        JsonValue::Object(o) => {
            proof {
                lemma_object_model(*o);
            }
            let ghost ms = entry_models(o@);
            let mut count: usize = 0;
            let mut i: usize = 0;
            assert(ms.subrange(0, ms.len() as int) =~= ms);
            while i < o.len()
                invariant
                    i <= o@.len(),
                    ms == entry_models(o@),
                    *value == JsonValue::Object(*o),
                    key_count(value.model()) <= usize::MAX,
                    key_count(value.model()) == entries_key_count(ms),
                    count + entries_key_count(ms.subrange(i as int, ms.len() as int)) == key_count(
                        value.model(),
                    ),
                decreases o.len() - i,
            {
                let ghost rest = ms.subrange(i as int, ms.len() as int);
                assert(rest[0] == ms[i as int]);
                assert(rest.subrange(1, rest.len() as int) =~= ms.subrange(i + 1, ms.len() as int));
                proof {
                    assert(decreases_to!(*value => (*value)->Object_0));
                    assert(decreases_to!(*o => o@));
                    assert(decreases_to!(o@ => o@[i as int]));
                    assert(decreases_to!(o@[i as int] => o@[i as int].1));
                    assert(rest[0].1 == o@[i as int].1.model());
                    assert(entries_key_count(rest) == entry_key_count(rest[0].1) + entries_key_count(
                        rest.subrange(1, rest.len() as int),
                    ));
                }
                let c = count_keys(&o[i].1);
                let is_object = match &o[i].1 {
                    JsonValue::Object(_) => true,
                    _ => false,
                };
                count = count + c;
                if !is_object {
                    count = count + 1;
                }
                i += 1;
            }
            count
        },
        JsonValue::Array(a) => {
            proof {
                lemma_array_model(*a);
            }
            let ghost ms = models(a@);
            let mut count: usize = 0;
            let mut i: usize = 0;
            assert(ms.subrange(0, ms.len() as int) =~= ms);
            while i < a.len()
                invariant
                    i <= a@.len(),
                    ms == models(a@),
                    *value == JsonValue::Array(*a),
                    key_count(value.model()) <= usize::MAX,
                    key_count(value.model()) == items_key_count(ms),
                    count + items_key_count(ms.subrange(i as int, ms.len() as int)) == key_count(
                        value.model(),
                    ),
                decreases a.len() - i,
            {
                let ghost rest = ms.subrange(i as int, ms.len() as int);
                assert(rest[0] == ms[i as int]);
                assert(rest.subrange(1, rest.len() as int) =~= ms.subrange(i + 1, ms.len() as int));
                proof {
                    assert(decreases_to!(*value => (*value)->Array_0));
                    assert(decreases_to!(*a => a@));
                    assert(decreases_to!(a@ => a@[i as int]));
                }
                let c = count_keys(&a[i]);
                count = count + c;
                i += 1;
            }
            count
        },
        _ => 0,
    }
}

/// The nesting depth of `value`.
pub fn calculate_depth(value: &JsonValue) -> (d: usize)
    requires
        nesting(value.model()) <= usize::MAX,
    ensures
        d == nesting(value.model()),
    decreases value,
{
    match value {
        JsonValue::Object(o) => {
            proof {
                lemma_object_model(*o);
            }
            let ghost ms = entry_models(o@);
            let mut best: usize = 0;
            let mut i: usize = 0;
            assert(ms.subrange(0, ms.len() as int) =~= ms);
            while i < o.len()
                invariant
                    i <= o@.len(),
                    ms == entry_models(o@),
                    *value == JsonValue::Object(*o),
                    nesting(value.model()) <= usize::MAX,
                    nesting(value.model()) == 1 + entries_nesting(ms),
                    entries_nesting(ms) == (if best > entries_nesting(ms.subrange(i as int, ms.len() as int)) {
                        best as nat
                    } else {
                        entries_nesting(ms.subrange(i as int, ms.len() as int))
                    }),
                decreases o.len() - i,
            {
                let ghost rest = ms.subrange(i as int, ms.len() as int);
                assert(rest[0] == ms[i as int]);
                assert(rest.subrange(1, rest.len() as int) =~= ms.subrange(i + 1, ms.len() as int));
                proof {
                    assert(decreases_to!(*value => (*value)->Object_0));
                    assert(decreases_to!(*o => o@));
                    assert(decreases_to!(o@ => o@[i as int]));
                    assert(decreases_to!(o@[i as int] => o@[i as int].1));
                    assert(rest[0].1 == o@[i as int].1.model());
                }
                let c = calculate_depth(&o[i].1);
                if c > best {
                    best = c;
                }
                i += 1;
            }
            assert(ms.subrange(i as int, ms.len() as int) =~= Seq::<(Seq<char>, Json)>::empty());
            best + 1
        },
        JsonValue::Array(a) => {
            proof {
                lemma_array_model(*a);
            }
            let ghost ms = models(a@);
            let mut best: usize = 0;
            let mut i: usize = 0;
            assert(ms.subrange(0, ms.len() as int) =~= ms);
            while i < a.len()
                invariant
                    i <= a@.len(),
                    ms == models(a@),
                    *value == JsonValue::Array(*a),
                    nesting(value.model()) <= usize::MAX,
                    nesting(value.model()) == 1 + items_nesting(ms),
                    items_nesting(ms) == (if best > items_nesting(ms.subrange(i as int, ms.len() as int)) {
                        best as nat
                    } else {
                        items_nesting(ms.subrange(i as int, ms.len() as int))
                    }),
                decreases a.len() - i,
            {
                let ghost rest = ms.subrange(i as int, ms.len() as int);
                assert(rest[0] == ms[i as int]);
                assert(rest.subrange(1, rest.len() as int) =~= ms.subrange(i + 1, ms.len() as int));
                proof {
                    assert(decreases_to!(*value => (*value)->Array_0));
                    assert(decreases_to!(*a => a@));
                    assert(decreases_to!(a@ => a@[i as int]));
                }
                let c = calculate_depth(&a[i]);
                if c > best {
                    best = c;
                }
                i += 1;
            }
            assert(ms.subrange(i as int, ms.len() as int) =~= Seq::<Json>::empty());
            best + 1
        },
        _ => 0,
    }
}

/// The number of keys in `value` as `key_count` counts them, or `None` when it
/// does not fit in a `usize`.
pub fn checked_count_keys(value: &JsonValue) -> (n: Option<usize>)
    ensures
        match n {
            Some(k) => k == key_count(value.model()),
            None => key_count(value.model()) > usize::MAX,
        },
    decreases value,
{
    match value {
        JsonValue::Object(o) => {
            proof {
                lemma_object_model(*o);
            }
            let ghost ms = entry_models(o@);
            let mut count: usize = 0;
            let mut i: usize = 0;
            assert(ms.subrange(0, ms.len() as int) =~= ms);
            while i < o.len()
                invariant
                    i <= o@.len(),
                    ms == entry_models(o@),
                    *value == JsonValue::Object(*o),
                    key_count(value.model()) == entries_key_count(ms),
                    count + entries_key_count(ms.subrange(i as int, ms.len() as int)) == key_count(
                        value.model(),
                    ),
                decreases o.len() - i,
            {
                let ghost rest = ms.subrange(i as int, ms.len() as int);
                assert(rest[0] == ms[i as int]);
                assert(rest.subrange(1, rest.len() as int) =~= ms.subrange(i + 1, ms.len() as int));
                proof {
                    assert(decreases_to!(*value => (*value)->Object_0));
                    assert(decreases_to!(*o => o@));
                    assert(decreases_to!(o@ => o@[i as int]));
                    assert(decreases_to!(o@[i as int] => o@[i as int].1));
                    assert(rest[0].1 == o@[i as int].1.model());
                    assert(entries_key_count(rest) == entry_key_count(rest[0].1) + entries_key_count(
                        rest.subrange(1, rest.len() as int),
                    ));
                }
                let c = match checked_count_keys(&o[i].1) {
                    None => return None,
                    Some(c) => c,
                };
                let is_object = match &o[i].1 {
                    JsonValue::Object(_) => true,
                    _ => false,
                };
                count = match count.checked_add(c) {
                    None => return None,
                    Some(n) => n,
                };
                if !is_object {
                    count = match count.checked_add(1) {
                        None => return None,
                        Some(n) => n,
                    };
                }
                i += 1;
            }
            Some(count)
        },
        JsonValue::Array(a) => {
            proof {
                lemma_array_model(*a);
            }
            let ghost ms = models(a@);
            let mut count: usize = 0;
            let mut i: usize = 0;
            assert(ms.subrange(0, ms.len() as int) =~= ms);
            while i < a.len()
                invariant
                    i <= a@.len(),
                    ms == models(a@),
                    *value == JsonValue::Array(*a),
                    key_count(value.model()) == items_key_count(ms),
                    count + items_key_count(ms.subrange(i as int, ms.len() as int)) == key_count(
                        value.model(),
                    ),
                decreases a.len() - i,
            {
                let ghost rest = ms.subrange(i as int, ms.len() as int);
                assert(rest[0] == ms[i as int]);
                assert(rest.subrange(1, rest.len() as int) =~= ms.subrange(i + 1, ms.len() as int));
                proof {
                    assert(decreases_to!(*value => (*value)->Array_0));
                    assert(decreases_to!(*a => a@));
                    assert(decreases_to!(a@ => a@[i as int]));
                }
                let c = match checked_count_keys(&a[i]) {
                    None => return None,
                    Some(c) => c,
                };
                count = match count.checked_add(c) {
                    None => return None,
                    Some(n) => n,
                };
                i += 1;
            }
            Some(count)
        },
        _ => Some(0),
    }
}

/// The nesting depth of `value`, or `None` when it does not fit in a `usize`.
pub fn checked_depth(value: &JsonValue) -> (d: Option<usize>)
    ensures
        match d {
            Some(k) => k == nesting(value.model()),
            None => nesting(value.model()) > usize::MAX,
        },
    decreases value,
{
    match value {
        JsonValue::Object(o) => {
            proof {
                lemma_object_model(*o);
            }
            let ghost ms = entry_models(o@);
            let mut best: usize = 0;
            let mut i: usize = 0;
            assert(ms.subrange(0, ms.len() as int) =~= ms);
            while i < o.len()
                invariant
                    i <= o@.len(),
                    ms == entry_models(o@),
                    *value == JsonValue::Object(*o),
                    nesting(value.model()) == 1 + entries_nesting(ms),
                    entries_nesting(ms) == (if best > entries_nesting(ms.subrange(i as int, ms.len() as int)) {
                        best as nat
                    } else {
                        entries_nesting(ms.subrange(i as int, ms.len() as int))
                    }),
                decreases o.len() - i,
            {
                let ghost rest = ms.subrange(i as int, ms.len() as int);
                assert(rest[0] == ms[i as int]);
                assert(rest.subrange(1, rest.len() as int) =~= ms.subrange(i + 1, ms.len() as int));
                proof {
                    assert(decreases_to!(*value => (*value)->Object_0));
                    assert(decreases_to!(*o => o@));
                    assert(decreases_to!(o@ => o@[i as int]));
                    assert(decreases_to!(o@[i as int] => o@[i as int].1));
                    assert(rest[0].1 == o@[i as int].1.model());
                }
                let c = match checked_depth(&o[i].1) {
                    None => return None,
                    Some(c) => c,
                };
                if c > best {
                    best = c;
                }
                i += 1;
            }
            assert(ms.subrange(i as int, ms.len() as int) =~= Seq::<(Seq<char>, Json)>::empty());
            best.checked_add(1)
        },
        JsonValue::Array(a) => {
            proof {
                lemma_array_model(*a);
            }
            let ghost ms = models(a@);
            let mut best: usize = 0;
            let mut i: usize = 0;
            assert(ms.subrange(0, ms.len() as int) =~= ms);
            while i < a.len()
                invariant
                    i <= a@.len(),
                    ms == models(a@),
                    *value == JsonValue::Array(*a),
                    nesting(value.model()) == 1 + items_nesting(ms),
                    items_nesting(ms) == (if best > items_nesting(ms.subrange(i as int, ms.len() as int)) {
                        best as nat
                    } else {
                        items_nesting(ms.subrange(i as int, ms.len() as int))
                    }),
                decreases a.len() - i,
            {
                let ghost rest = ms.subrange(i as int, ms.len() as int);
                assert(rest[0] == ms[i as int]);
                assert(rest.subrange(1, rest.len() as int) =~= ms.subrange(i + 1, ms.len() as int));
                proof {
                    assert(decreases_to!(*value => (*value)->Array_0));
                    assert(decreases_to!(*a => a@));
                    assert(decreases_to!(a@ => a@[i as int]));
                }
                let c = match checked_depth(&a[i]) {
                    None => return None,
                    Some(c) => c,
                };
                if c > best {
                    best = c;
                }
                i += 1;
            }
            assert(ms.subrange(i as int, ms.len() as int) =~= Seq::<Json>::empty());
            best.checked_add(1)
        },
        _ => Some(0),
    }
}

/// The name of the kind of `value`.
pub fn get_root_type(value: &JsonValue) -> (s: String)
    ensures
        s@ == kind_name(value.model()),
{
    match value {
        JsonValue::Null => "null".to_string(),
        JsonValue::Bool(_) => "boolean".to_string(),
        JsonValue::Number(_) => "number".to_string(),
        JsonValue::String(_) => "string".to_string(),
        JsonValue::Array(_) => "array".to_string(),
        JsonValue::Object(_) => "object".to_string(),
    }
}

} // verus!
