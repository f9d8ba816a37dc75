//! Concatenating the contents of JSON files into one array.
//!
//! The files are read outside; each file's text, or the error met reading it, is
//! handed in here and decoded with `serde_json`.
use vstd::prelude::*;
use crate::json_text::{read_decodings, decode_files};
use crate::json_value::{Json, JsonValue, models, lemma_array_model};
use crate::json_merge::doc_views;
use crate::vec_util::reversed;

verus! {

/// The elements gathered from the documents `docs` after `acc`: an array gives its
/// elements, any other value itself; an error stops the gathering.
pub open spec fn concatenated(docs: Seq<Result<Json, Seq<char>>>, acc: Seq<Json>) -> Result<Seq<Json>, Seq<char>>
    decreases docs.len(),
{
    if docs.len() == 0 {
        Ok(acc)
    } else {
        match docs[0] {
            Err(e) => Err(e),
            Ok(Json::Array(a)) => concatenated(docs.drop_first(), acc + a),
            Ok(v) => concatenated(docs.drop_first(), acc.push(v)),
        }
    }
}

/// One array of the documents' elements, in order, as `concatenated` says.
pub fn merge_json_files(files: &Vec<Result<String, String>>) -> (r: Result<JsonValue, String>)
    ensures
        match concatenated(read_decodings(files@), Seq::empty()) {
            Ok(items) => r matches Ok(v) && v.model() == Json::Array(items),
            Err(e) => r matches Err(m) && m@ == e,
        },
{
    merge_documents(decode_files(files))
}

/// One array of the documents' elements, in order, as `concatenated` says.
/// The documents are handed in decoded.
pub fn merge_documents(documents: Vec<Result<JsonValue, String>>) -> (r: Result<JsonValue, String>)
    ensures
        match concatenated(doc_views(documents@), Seq::empty()) {
            Ok(items) => r matches Ok(v) && v.model() == Json::Array(items),
            Err(e) => r matches Err(m) && m@ == e,
        },
{
    let ghost ds = doc_views(documents@);
    let ghost target = concatenated(ds, Seq::empty());
    let mut rest = reversed(documents);
    let mut merged: Vec<JsonValue> = Vec::new();
    assert(ds.skip(0) =~= ds);
    assert(models(merged@) =~= Seq::<Json>::empty());
    while rest.len() > 0
        invariant
            rest@.len() <= ds.len(),
            ds == doc_views(documents@),
            target == concatenated(ds, Seq::empty()),
            forall|j: int| #![trigger rest@[j]] 0 <= j < rest@.len() ==> doc_views(rest@)[j] == ds[ds.len() - 1 - j],
            concatenated(ds.skip(ds.len() - rest@.len()), models(merged@)) == target,
        decreases rest.len(),
    {
        let ghost k = ds.len() - rest@.len();
        let ghost last = rest@.len() - 1;
        assert(doc_views(rest@)[last] == ds[k]);
        let d = rest.pop().unwrap();
        assert(ds[k] == (match d {
            Ok(v) => Ok(v.model()),
            Err(e) => Err(e@),
        }));
        assert(ds.skip(k)[0] == ds[k]);
        assert(ds.skip(k).drop_first() =~= ds.skip(k + 1));
        match d {
            Err(e) => {
                return Err(e);
            },
            Ok(JsonValue::Array(arr)) => {
                proof {
                    lemma_array_model(arr);
                }
                let ghost before = models(merged@);
                let ghost am = models(arr@);
                let mut items = reversed(arr);
                while items.len() > 0
                    invariant
                        items@.len() <= am.len(),
                        forall|j: int| #![trigger items@[j]] 0 <= j < items@.len() ==> items@[j].model() == am[am.len() - 1 - j],
                        models(merged@) == before + am.take(am.len() - items@.len()),
                    decreases items.len(),
                {
                    let ghost q = am.len() - items@.len();
                    let x = items.pop().unwrap();
                    let ghost mm = models(merged@);
                    merged.push(x);
                    assert(models(merged@) =~= mm.push(am[q]));
                    assert(am.take(q + 1) =~= am.take(q).push(am[q]));
                }
                assert(am.take(am.len() as int) =~= am);
            },
            Ok(v) => {
                let ghost before = models(merged@);
                let ghost vm = v.model();
                merged.push(v);
                assert(models(merged@) =~= before.push(vm));
            },
        }
    }
    assert(ds.skip(ds.len() as int) =~= Seq::<Result<Json, Seq<char>>>::empty());
    proof {
        lemma_array_model(merged);
    }
    Ok(JsonValue::Array(merged))
}

} // verus!
