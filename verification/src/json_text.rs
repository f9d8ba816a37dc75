//! JSON text decoded with `serde_json` into the library's `JsonValue`, and the
//! documents of files (their texts, or the errors met reading them) decoded in
//! turn.
use vstd::prelude::*;
use crate::json_value::{Json, JsonValue, entry_models, distinct_keys, models};
use crate::json_merge::{doc_views, optional_doc_views};

verus! {

/// `serde_json::Value`, carried through the decoding.
#[verifier::external_type_specification]
#[verifier::external_body]
pub struct ExSerdeValue(serde_json::Value);

/// What `serde_json::from_str::<serde_json::Value>` gives for `text`: the
/// document, or the `Display` text of the error.
pub uninterp spec fn decoded_json(text: Seq<char>) -> Result<Json, Seq<char>>;

/// What `serde_json::from_str::<Vec<serde_json::Value>>` gives for `text`: the
/// items of the array, or the `Display` text of the error.
pub uninterp spec fn decoded_json_array(text: Seq<char>) -> Result<Seq<Json>, Seq<char>>;

/// `serde_json::from_str::<serde_json::Value>`: the document in `text` as a
/// `JsonValue` (a number keeps the text `serde_json` prints for it), or the
/// `Display` text of the error. An object of a `serde_json::Map` holds each key
/// once.
#[verifier::external_body]
pub fn decode_json(text: &str) -> (r: Result<JsonValue, String>)
    ensures
        match decoded_json(text@) {
            Ok(v) => r matches Ok(x) && x.model() == v,
            Err(e) => r matches Err(m) && m@ == e,
        },
        r matches Ok(JsonValue::Object(m)) ==> distinct_keys(entry_models(m@)),
{
    match serde_json::from_str::<serde_json::Value>(text) {
        Ok(v) => Ok(json_from_serde(v)),
        Err(e) => Err(e.to_string()),
    }
}

/// `serde_json::from_str::<Vec<serde_json::Value>>`: the items of the array in
/// `text`, or the `Display` text of the error (a document that is not an array
/// is one).
#[verifier::external_body]
pub fn decode_json_array(text: &str) -> (r: Result<Vec<JsonValue>, String>)
    ensures
        match decoded_json_array(text@) {
            Ok(a) => r matches Ok(x) && models(x@) == a,
            Err(e) => r matches Err(m) && m@ == e,
        },
{
    match serde_json::from_str::<Vec<serde_json::Value>>(text) {
        Ok(a) => Ok(a.into_iter().map(json_from_serde).collect()),
        Err(e) => Err(e.to_string()),
    }
}

/// The conversion that `decode_json` and `decode_json_array` apply to what
/// `serde_json` decoded: one variant for one, a number by its printed text. It is
/// a function of its own because values nest.
#[verifier::external_body]
fn json_from_serde(v: serde_json::Value) -> JsonValue {
    match v {
        serde_json::Value::Null => JsonValue::Null,
        serde_json::Value::Bool(b) => JsonValue::Bool(b),
        serde_json::Value::Number(n) => JsonValue::Number(n.to_string()),
        serde_json::Value::String(s) => JsonValue::String(s),
        serde_json::Value::Array(a) => JsonValue::Array(a.into_iter().map(json_from_serde).collect()),
        serde_json::Value::Object(m) => JsonValue::Object(m.into_iter().map(|(k, x)| (k, json_from_serde(x))).collect()),
    }
}

/// What decoding the text of a file gives, or the error met reading it.
pub open spec fn read_decoding(f: Result<String, String>) -> Result<Json, Seq<char>> {
    match f {
        Ok(t) => decoded_json(t@),
        Err(e) => Err(e@),
    }
}

/// `read_decoding` of each file.
pub open spec fn read_decodings(fs: Seq<Result<String, String>>) -> Seq<Result<Json, Seq<char>>> {
    Seq::new(fs.len(), |i: int| read_decoding(fs[i]))
}

/// `read_decoding` of each file that is present; `None` for a missing one.
pub open spec fn optional_read_decodings(fs: Seq<Option<Result<String, String>>>) -> Seq<
    Option<Result<Json, Seq<char>>>,
> {
    Seq::new(
        fs.len(),
        |i: int|
            match fs[i] {
                None => None,
                Some(f) => Some(read_decoding(f)),
            },
    )
}

/// `decoded_json` of each text.
pub open spec fn decodings(ts: Seq<Seq<char>>) -> Seq<Result<Json, Seq<char>>> {
    Seq::new(ts.len(), |i: int| decoded_json(ts[i]))
}

/// The document of a file: its text decoded, or the error met reading it.
pub fn decode_file(f: &Result<String, String>) -> (r: Result<JsonValue, String>)
    ensures
        match read_decoding(*f) {
            Ok(v) => r matches Ok(x) && x.model() == v,
            Err(e) => r matches Err(m) && m@ == e,
        },
{
    match f {
        Ok(t) => decode_json(t.as_str()),
        Err(e) => Err(e.clone()),
    }
}

/// The documents of the files, in order.
pub fn decode_files(files: &Vec<Result<String, String>>) -> (r: Vec<Result<JsonValue, String>>)
    ensures
        doc_views(r@) == read_decodings(files@),
{
    let mut out: Vec<Result<JsonValue, String>> = Vec::new();
    let mut i: usize = 0;
    while i < files.len()
        invariant
            i <= files@.len(),
            out@.len() == i,
            doc_views(out@) == read_decodings(files@).take(i as int),
        decreases files.len() - i,
    {
        let d = decode_file(&files[i]);
        let ghost before = out@;
        out.push(d);
        assert forall|j: int| 0 <= j < i + 1 implies #[trigger] doc_views(out@)[j] == read_decodings(
            files@,
        ).take(i + 1)[j] by {
            if j < i {
                assert(out@[j] == before[j]);
                assert(doc_views(before)[j] == read_decodings(files@).take(i as int)[j]);
            }
        }
        assert(doc_views(out@) =~= read_decodings(files@).take(i + 1));
        i += 1;
    }
    assert(read_decodings(files@).take(i as int) =~= read_decodings(files@));
    out
}

/// The documents of the files that are present, `None` for a missing one.
pub fn decode_present_files(files: &Vec<Option<Result<String, String>>>) -> (r: Vec<Option<Result<JsonValue, String>>>)
    ensures
        optional_doc_views(r@) == optional_read_decodings(files@),
{
    let mut out: Vec<Option<Result<JsonValue, String>>> = Vec::new();
    let mut i: usize = 0;
    while i < files.len()
        invariant
            i <= files@.len(),
            out@.len() == i,
            optional_doc_views(out@) == optional_read_decodings(files@).take(i as int),
        decreases files.len() - i,
    {
        let d = match &files[i] {
            None => None,
            Some(f) => Some(decode_file(f)),
        };
        let ghost before = out@;
        out.push(d);
        assert forall|j: int| 0 <= j < i + 1 implies #[trigger] optional_doc_views(out@)[j]
            == optional_read_decodings(files@).take(i + 1)[j] by {
            if j < i {
                assert(out@[j] == before[j]);
                assert(optional_doc_views(before)[j] == optional_read_decodings(files@).take(i as int)[j]);
            }
        }
        assert(optional_doc_views(out@) =~= optional_read_decodings(files@).take(i + 1));
        i += 1;
    }
    assert(optional_read_decodings(files@).take(i as int) =~= optional_read_decodings(files@));
    out
}

} // verus!
