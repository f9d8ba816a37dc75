//! Merging the top-level objects of JSON files, keeping both values of a key that
//! two files give differently.
//!
//! The files are read outside; each file's text, or the error met reading it, is
//! handed in here and decoded with `serde_json`.
use vstd::prelude::*;
use crate::json_text::{read_decodings, decode_files};
use crate::json_value::{Json, JsonValue, entry_models, models, lookup, obj_insert, lemma_object_model, lemma_array_model, lemma_key_index_bounds, find_key, insert_entry, deep_clone};
use crate::json_merge::{doc_views, json_equal};
use crate::vec_util::reversed;

verus! {

broadcast use vstd::string::group_string_axioms;

/// A key that two files give different values: the key, the value held, and the
/// value met.
pub struct Conflict {
    pub key: String,
    pub existing: JsonValue,
    pub incoming: JsonValue,
}

/// The view of a conflict.
pub open spec fn conflict_view(c: Conflict) -> (Seq<char>, Json, Json) {
    (c.key@, c.existing.model(), c.incoming.model())
}

/// The views of conflicts.
pub open spec fn conflict_views(cs: Seq<Conflict>) -> Seq<(Seq<char>, Json, Json)> {
    Seq::new(cs.len(), |i: int| conflict_view(cs[i]))
}

/// The entries `m` set into `acc` in order: a new key is added; a key held with a
/// different value gets the array of the held and the new value, and a conflict
/// is noted; a key held with the same value is left.
pub open spec fn keep_both(
    m: Seq<(Seq<char>, Json)>,
    acc: Seq<(Seq<char>, Json)>,
    log: Seq<(Seq<char>, Json, Json)>,
) -> (Seq<(Seq<char>, Json)>, Seq<(Seq<char>, Json, Json)>)
    decreases m.len(),
{
    if m.len() == 0 {
        (acc, log)
    } else {
        let (k, v) = m[0];
        match lookup(acc, k) {
            Some(e) => if e != v {
                keep_both(m.drop_first(), obj_insert(acc, k, Json::Array(seq![e, v])), log.push((k, e, v)))
            } else {
                keep_both(m.drop_first(), acc, log)
            },
            None => keep_both(m.drop_first(), obj_insert(acc, k, v), log),
        }
    }
}

/// The documents `docs` merged into `acc` with conflicts `log`; an error stops the
/// merge and a document that is not an object is passed over.
pub open spec fn keep_both_files(
    docs: Seq<Result<Json, Seq<char>>>,
    acc: Seq<(Seq<char>, Json)>,
    log: Seq<(Seq<char>, Json, Json)>,
) -> Result<(Seq<(Seq<char>, Json)>, Seq<(Seq<char>, Json, Json)>), Seq<char>>
    decreases docs.len(),
{
    if docs.len() == 0 {
        Ok((acc, log))
    } else {
        match docs[0] {
            Err(e) => Err(e),
            Ok(Json::Object(m)) => {
                let (acc2, log2) = keep_both(m, acc, log);
                keep_both_files(docs.drop_first(), acc2, log2)
            },
            Ok(_) => keep_both_files(docs.drop_first(), acc, log),
        }
    }
}

/// One object from the documents' objects, as `keep_both_files` says, with the
/// conflicts met.
pub fn merge_json_files(files: &Vec<Result<String, String>>) -> (r: Result<(JsonValue, Vec<Conflict>), String>)
    ensures
        match keep_both_files(read_decodings(files@), Seq::empty(), Seq::empty()) {
            Ok((es, log)) => r matches Ok((v, cs)) && v.model() == Json::Object(es) && conflict_views(cs@) == log,
            Err(e) => r matches Err(m) && m@ == e,
        },
{
    merge_documents(decode_files(files))
}

/// One object from the documents' objects, as `keep_both_files` says, with the
/// conflicts met.
/// The documents are handed in decoded.
pub fn merge_documents(documents: Vec<Result<JsonValue, String>>) -> (r: Result<(JsonValue, Vec<Conflict>), String>)
    ensures
        match keep_both_files(doc_views(documents@), Seq::empty(), Seq::empty()) {
            Ok((es, log)) => r matches Ok((v, cs)) && v.model() == Json::Object(es) && conflict_views(cs@) == log,
            Err(e) => r matches Err(m) && m@ == e,
        },
{
    let ghost ds = doc_views(documents@);
    let ghost target = keep_both_files(ds, Seq::empty(), Seq::empty());
    let mut rest = reversed(documents);
    let mut acc: Vec<(String, JsonValue)> = Vec::new();
    let mut conflicts: Vec<Conflict> = Vec::new();
    assert(ds.skip(0) =~= ds);
    assert(entry_models(acc@) =~= Seq::<(Seq<char>, Json)>::empty());
    assert(conflict_views(conflicts@) =~= Seq::<(Seq<char>, Json, Json)>::empty());
    while rest.len() > 0
        invariant
            rest@.len() <= ds.len(),
            ds == doc_views(documents@),
            target == keep_both_files(ds, Seq::empty(), Seq::empty()),
            forall|j: int| #![trigger rest@[j]] 0 <= j < rest@.len() ==> doc_views(rest@)[j] == ds[ds.len() - 1 - j],
            keep_both_files(ds.skip(ds.len() - rest@.len()), entry_models(acc@), conflict_views(conflicts@)) == target,
        decreases rest.len(),
    {
        let ghost k = ds.len() - rest@.len();
        let ghost last = rest@.len() - 1;
        assert(doc_views(rest@)[last] == ds[k]);
        let d = rest.pop().unwrap();
        assert(ds[k] == (match d {
            Ok(v) => Ok(v.model()),
            Err(e) => Err(e@),
        }));
        assert(ds.skip(k)[0] == ds[k]);
        assert(ds.skip(k).drop_first() =~= ds.skip(k + 1));
        match d {
            Err(e) => {
                return Err(e);
            },
            Ok(JsonValue::Object(m)) => {
                proof {
                    lemma_object_model(m);
                }
                add_keeping_both(&mut acc, &mut conflicts, m);
            },
            Ok(_) => {},
        }
    }
    assert(ds.skip(ds.len() as int) =~= Seq::<Result<Json, Seq<char>>>::empty());
    proof {
        lemma_object_model(acc);
    }
    Ok((JsonValue::Object(acc), conflicts))
}

/// Sets the entries `m` into `acc` as `keep_both` says, noting conflicts.
fn add_keeping_both(acc: &mut Vec<(String, JsonValue)>, conflicts: &mut Vec<Conflict>, m: Vec<(String, JsonValue)>)
    ensures
        (entry_models(final(acc)@), conflict_views(final(conflicts)@)) == keep_both(
            entry_models(m@),
            entry_models(old(acc)@),
            conflict_views(old(conflicts)@),
        ),
{
    let ghost ms = entry_models(m@);
    let ghost target = keep_both(ms, entry_models(acc@), conflict_views(conflicts@));
    let mut rest = reversed(m);
    assert(ms.skip(0) =~= ms);
    while rest.len() > 0
        invariant
            ms == entry_models(m@),
            target == keep_both(ms, entry_models(old(acc)@), conflict_views(old(conflicts)@)),
            rest@.len() <= ms.len(),
            forall|j: int| #![trigger rest@[j]] 0 <= j < rest@.len() ==> rest@[j].0@ == ms[ms.len() - 1 - j].0
                && rest@[j].1.model() == ms[ms.len() - 1 - j].1,
            keep_both(ms.skip(ms.len() - rest@.len()), entry_models(acc@), conflict_views(conflicts@)) == target,
        decreases rest.len(),
    {
        let ghost q = ms.len() - rest@.len();
        let ghost am = entry_models(acc@);
        let (key, value) = rest.pop().unwrap();
        assert(ms.skip(q)[0] == ms[q]);
        assert(ms.skip(q).drop_first() =~= ms.skip(q + 1));
        proof {
            lemma_key_index_bounds(am, key@);
        }
        let pos = find_key(acc, &key);
        if pos < acc.len() {
            if !json_equal(&acc[pos].1, &value) {
                let existing = deep_clone(&acc[pos].1);
                let incoming = deep_clone(&value);
                let pair = vec![existing, value];
                let ghost pm = models(pair@);
                assert(pm =~= seq![am[pos as int].1, ms[q].1]);
                proof {
                    lemma_array_model(pair);
                }
                let ghost cv = conflict_views(conflicts@);
                let kc = key.clone();
                let e2 = deep_clone(&acc[pos].1);
                conflicts.push(Conflict { key: kc, existing: e2, incoming });
                assert(conflict_views(conflicts@) =~= cv.push((key@, am[pos as int].1, ms[q].1)));
                insert_entry(acc, key, JsonValue::Array(pair));
            }
        } else {
            insert_entry(acc, key, value);
        }
    }
    assert(ms.skip(ms.len() as int) =~= Seq::<(Seq<char>, Json)>::empty());
}

} // verus!
