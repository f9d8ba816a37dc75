//! Merging the top-level objects of JSON files in depth, passing over documents
//! that are not objects.
use vstd::prelude::*;
use crate::json_text::{read_decodings, decode_files};
use crate::json_value::{Json, JsonValue, entry_models, lemma_object_model};
use crate::json_merge::{doc_views, merge_entries, merge_values};
use crate::vec_util::reversed;

verus! {

/// The objects of the documents `docs` merged in depth into `acc`; an error stops
/// the merge and a document that is not an object is passed over.
pub open spec fn deep_files(docs: Seq<Result<Json, Seq<char>>>, acc: Seq<(Seq<char>, Json)>) -> Result<
    Seq<(Seq<char>, Json)>,
    Seq<char>,
>
    decreases docs.len(),
{
    if docs.len() == 0 {
        Ok(acc)
    } else {
        match docs[0] {
            Err(e) => Err(e),
            Ok(Json::Object(m)) => deep_files(docs.drop_first(), merge_entries(acc, m, true)),
            Ok(_) => deep_files(docs.drop_first(), acc),
        }
    }
}

/// Merges the entries `source` into `target`: a key both have whose values are
/// both objects has them merged in turn; otherwise `source`'s value is set.
pub fn merge_objects(target: &mut Vec<(String, JsonValue)>, source: Vec<(String, JsonValue)>)
    ensures
        entry_models(final(target)@) == merge_entries(entry_models(old(target)@), entry_models(source@), true),
{
    let mut taken: Vec<(String, JsonValue)> = Vec::new();
    std::mem::swap(&mut taken, target);
    proof {
        lemma_object_model(taken);
        lemma_object_model(source);
    }
    let t = JsonValue::Object(taken);
    let s = JsonValue::Object(source);
    let m = merge_values(t, &s, true);
    match m {
        JsonValue::Object(es) => {
            proof {
                lemma_object_model(es);
            }
            *target = es;
        },
        _ => {},
    }
}

/// One object merged in depth from the documents' objects, in order.
pub fn merge_json_files(files: &Vec<Result<String, String>>) -> (r: Result<JsonValue, String>)
    ensures
        match deep_files(read_decodings(files@), Seq::empty()) {
            Ok(es) => r matches Ok(v) && v.model() == Json::Object(es),
            Err(e) => r matches Err(m) && m@ == e,
        },
{
    merge_documents(decode_files(files))
}

/// One object merged in depth from the documents' objects, in order.
/// The documents are handed in decoded.
pub fn merge_documents(documents: Vec<Result<JsonValue, String>>) -> (r: Result<JsonValue, String>)
    ensures
        match deep_files(doc_views(documents@), Seq::empty()) {
            Ok(es) => r matches Ok(v) && v.model() == Json::Object(es),
            Err(e) => r matches Err(m) && m@ == e,
        },
{
    let ghost ds = doc_views(documents@);
    let ghost target = deep_files(ds, Seq::empty());
    let mut rest = reversed(documents);
    let mut acc: Vec<(String, JsonValue)> = Vec::new();
    assert(ds.skip(0) =~= ds);
    assert(entry_models(acc@) =~= Seq::<(Seq<char>, Json)>::empty());
    while rest.len() > 0
        invariant
            rest@.len() <= ds.len(),
            ds == doc_views(documents@),
            target == deep_files(ds, Seq::empty()),
            forall|j: int| #![trigger rest@[j]] 0 <= j < rest@.len() ==> doc_views(rest@)[j] == ds[ds.len() - 1 - j],
            deep_files(ds.skip(ds.len() - rest@.len()), entry_models(acc@)) == target,
        decreases rest.len(),
    {
        let ghost k = ds.len() - rest@.len();
        let ghost last = rest@.len() - 1;
        assert(doc_views(rest@)[last] == ds[k]);
        let d = rest.pop().unwrap();
        assert(ds[k] == (match d {
            Ok(v) => Ok(v.model()),
            Err(e) => Err(e@),
        }));
        assert(ds.skip(k)[0] == ds[k]);
        assert(ds.skip(k).drop_first() =~= ds.skip(k + 1));
        match d {
            Err(e) => {
                return Err(e);
            },
            Ok(JsonValue::Object(m)) => {
                proof {
                    lemma_object_model(m);
                }
                merge_objects(&mut acc, m);
            },
            Ok(_) => {},
        }
    }
    assert(ds.skip(ds.len() as int) =~= Seq::<Result<Json, Seq<char>>>::empty());
    proof {
        lemma_object_model(acc);
    }
    Ok(JsonValue::Object(acc))
}

} // verus!
