//! Merging JSON documents: the top-level objects of several files, and one value
//! into another with a choice for arrays.
//!
//! The files are read outside; each file's text, or the error met reading it, is
//! handed in here and decoded with `serde_json`.
use vstd::prelude::*;
use crate::json_text::{read_decodings, decode_files, decoded_json, decode_json};
use crate::json_value::{Json, JsonValue, entry_models, lemma_object_model};
use crate::json_merge::{doc_views, union_entries, union_into, merged, merge_into};
use crate::vec_util::reversed;

verus! {

broadcast use vstd::string::group_string_axioms;

/// The top-level objects of the documents `docs` set in order into `acc`; an error
/// stops the merge, and so does a document that is not an object.
pub open spec fn objects_merge(docs: Seq<Result<Json, Seq<char>>>, acc: Seq<(Seq<char>, Json)>) -> Result<
    Seq<(Seq<char>, Json)>,
    Seq<char>,
>
    decreases docs.len(),
{
    if docs.len() == 0 {
        Ok(acc)
    } else {
        match docs[0] {
            Err(e) => Err(e),
            Ok(Json::Object(m)) => objects_merge(docs.drop_first(), union_entries(acc, m)),
            Ok(_) => Err("Each JSON file must contain a JSON object"@),
        }
    }
}

/// One object with the keys of all the documents' objects, a later file's value
/// for a key replacing an earlier one.
pub fn merge_json_files(files: &Vec<Result<String, String>>) -> (r: Result<JsonValue, String>)
    ensures
        match objects_merge(read_decodings(files@), Seq::empty()) {
            Ok(es) => r matches Ok(v) && v.model() == Json::Object(es),
            Err(e) => r matches Err(m) && m@ == e,
        },
{
    merge_documents(decode_files(files))
}

/// One object with the keys of all the documents' objects, a later file's value
/// for a key replacing an earlier one.
/// The documents are handed in decoded.
pub fn merge_documents(documents: Vec<Result<JsonValue, String>>) -> (r: Result<JsonValue, String>)
    ensures
        match objects_merge(doc_views(documents@), Seq::empty()) {
            Ok(es) => r matches Ok(v) && v.model() == Json::Object(es),
            Err(e) => r matches Err(m) && m@ == e,
        },
{
    let ghost ds = doc_views(documents@);
    let ghost target = objects_merge(ds, Seq::empty());
    let mut rest = reversed(documents);
    let mut acc: Vec<(String, JsonValue)> = Vec::new();
    assert(ds.skip(0) =~= ds);
    assert(entry_models(acc@) =~= Seq::<(Seq<char>, Json)>::empty());
    while rest.len() > 0
        invariant
            rest@.len() <= ds.len(),
            ds == doc_views(documents@),
            target == objects_merge(ds, Seq::empty()),
            forall|j: int| #![trigger rest@[j]] 0 <= j < rest@.len() ==> doc_views(rest@)[j] == ds[ds.len() - 1 - j],
            objects_merge(ds.skip(ds.len() - rest@.len()), entry_models(acc@)) == target,
        decreases rest.len(),
    {
        let ghost k = ds.len() - rest@.len();
        let ghost last = rest@.len() - 1;
        assert(doc_views(rest@)[last] == ds[k]);
        let d = rest.pop().unwrap();
        assert(ds[k] == (match d {
            Ok(v) => Ok(v.model()),
            Err(e) => Err(e@),
        }));
        assert(ds.skip(k)[0] == ds[k]);
        assert(ds.skip(k).drop_first() =~= ds.skip(k + 1));
        match d {
            Err(e) => {
                return Err(e);
            },
            Ok(JsonValue::Object(m)) => {
                proof {
                    lemma_object_model(m);
                }
                union_into(&mut acc, m);
            },
            Ok(_) => {
                return Err("Each JSON file must contain a JSON object".to_string());
            },
        }
    }
    assert(ds.skip(ds.len() as int) =~= Seq::<Result<Json, Seq<char>>>::empty());
    proof {
        lemma_object_model(acc);
    }
    Ok(JsonValue::Object(acc))
}

/// Merges `other` into `base`: objects key by key, arrays (unless
/// `overwrite_arrays`) by appending `other`'s elements that are not strings
/// already in `base`, anything else by replacement.
pub fn merge_json(base: &mut JsonValue, other: &JsonValue, overwrite_arrays: bool)
    ensures
        final(base).model() == merged(old(base).model(), other.model(), overwrite_arrays),
{
    merge_into(base, other, overwrite_arrays);
}

/// The merge of the documents in the texts `base` and `other` (or the first error
/// met decoding them); printing it is left to the caller.
pub fn merge_json_with_strategy(
    base: &str,
    other: &str,
    overwrite_arrays: bool,
) -> (r: Result<JsonValue, String>)
    ensures
        match (decoded_json(base@), decoded_json(other@)) {
            (Err(e), _) => r matches Err(m) && m@ == e,
            (Ok(_), Err(e)) => r matches Err(m) && m@ == e,
            (Ok(b), Ok(o)) => r matches Ok(v) && v.model() == merged(b, o, overwrite_arrays),
        },
{
    let mut base_value = match decode_json(base) {
        Err(e) => return Err(e),
        Ok(b) => b,
    };
    let other_value = match decode_json(other) {
        Err(e) => return Err(e),
        Ok(o) => o,
    };
    merge_json(&mut base_value, &other_value, overwrite_arrays);
    Ok(base_value)
}

} // verus!
