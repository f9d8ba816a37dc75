//! Merging the top-level objects of JSON files that must all exist and hold
//! objects, with a warning for each key overwritten.
//!
//! The files are looked for and read outside; for each file its name and either
//! `None` (not found) or its text or the error met reading it are handed in here,
//! and the texts decoded with `serde_json`.
use vstd::prelude::*;
use crate::json_text::{optional_read_decodings, decode_present_files};
use crate::json_value::{Json, JsonValue, entry_models, lookup, obj_insert, lemma_object_model, lemma_key_index_bounds, find_key, insert_entry};
use crate::json_merge::optional_doc_views;
use crate::text::{concat_str, string_views};
use crate::vec_util::reversed;

verus! {

broadcast use vstd::string::group_string_axioms;

/// The warning for key `k` being overwritten.
pub open spec fn overwrite_warning(k: Seq<char>) -> Seq<char> {
    "Warning: Key '"@ + k + "' already exists, overwriting."@
}

/// The entries `m` set into `acc` in order, with a warning for each key present.
pub open spec fn with_warnings(m: Seq<(Seq<char>, Json)>, acc: Seq<(Seq<char>, Json)>, log: Seq<Seq<char>>) -> (
    Seq<(Seq<char>, Json)>,
    Seq<Seq<char>>,
)
    decreases m.len(),
{
    if m.len() == 0 {
        (acc, log)
    } else {
        let (k, v) = m[0];
        let log2 = if lookup(acc, k) is Some {
            log.push(overwrite_warning(k))
        } else {
            log
        };
        with_warnings(m.drop_first(), obj_insert(acc, k, v), log2)
    }
}

/// The merge of the files from position `i` on: a missing file, an error, or a
/// document that is not an object stops it.
pub open spec fn strict_merge(
    docs: Seq<Option<Result<Json, Seq<char>>>>,
    paths: Seq<Seq<char>>,
    i: int,
    acc: Seq<(Seq<char>, Json)>,
    log: Seq<Seq<char>>,
) -> Result<(Seq<(Seq<char>, Json)>, Seq<Seq<char>>), Seq<char>>
    decreases docs.len() - i,
{
    if i < 0 || i >= docs.len() {
        Ok((acc, log))
    } else {
        match docs[i] {
            None => Err("File not found: "@ + paths[i]),
            Some(Err(e)) => Err(e),
            Some(Ok(Json::Object(m))) => {
                let (acc2, log2) = with_warnings(m, acc, log);
                strict_merge(docs, paths, i + 1, acc2, log2)
            },
            Some(Ok(_)) => Err("Top-level JSON must be an object"@),
        }
    }
}

/// One object with the keys of all the files' objects, a later value for a key
/// replacing an earlier one, and the warnings given.
pub fn merge_json_files(paths: &Vec<String>, files: &Vec<Option<Result<String, String>>>) -> (r: Result<
    (JsonValue, Vec<String>),
    String,
>)
    requires
        paths@.len() == files@.len(),
    ensures
        match strict_merge(optional_read_decodings(files@), string_views(paths@), 0, Seq::empty(), Seq::empty()) {
            Ok((es, log)) => r matches Ok((v, w)) && v.model() == Json::Object(es) && string_views(w@) == log,
            Err(e) => r matches Err(m) && m@ == e,
        },
{
    merge_documents(paths, decode_present_files(files))
}

/// One object with the keys of all the files' objects, a later value for a key
/// replacing an earlier one, and the warnings given.
/// The documents are handed in decoded.
pub fn merge_documents(paths: &Vec<String>, documents: Vec<Option<Result<JsonValue, String>>>) -> (r: Result<
    (JsonValue, Vec<String>),
    String,
>)
    requires
        paths@.len() == documents@.len(),
    ensures
        match strict_merge(optional_doc_views(documents@), string_views(paths@), 0, Seq::empty(), Seq::empty()) {
            Ok((es, log)) => r matches Ok((v, w)) && v.model() == Json::Object(es) && string_views(w@) == log,
            Err(e) => r matches Err(m) && m@ == e,
        },
{
    let ghost ds = optional_doc_views(documents@);
    let ghost ps = string_views(paths@);
    let ghost target = strict_merge(ds, ps, 0, Seq::empty(), Seq::empty());
    let n = documents.len();
    let mut rest = reversed(documents);
    let mut acc: Vec<(String, JsonValue)> = Vec::new();
    let mut warnings: Vec<String> = Vec::new();
    let mut idx: usize = 0;
    assert(entry_models(acc@) =~= Seq::<(Seq<char>, Json)>::empty());
    assert(string_views(warnings@) =~= Seq::<Seq<char>>::empty());
    while rest.len() > 0
        invariant
            n == ds.len(),
            ds.len() == ps.len(),
            ps == string_views(paths@),
            ds == optional_doc_views(documents@),
            target == strict_merge(ds, ps, 0, Seq::empty(), Seq::empty()),
            idx + rest@.len() == n,
            forall|j: int| #![trigger rest@[j]] 0 <= j < rest@.len() ==> optional_doc_views(rest@)[j] == ds[ds.len() - 1 - j],
            strict_merge(ds, ps, idx as int, entry_models(acc@), string_views(warnings@)) == target,
        decreases rest.len(),
    {
        let ghost last = rest@.len() - 1;
        assert(optional_doc_views(rest@)[last] == ds[idx as int]);
        let d = rest.pop().unwrap();
        assert(ds[idx as int] == (match d {
            None => None,
            Some(Ok(v)) => Some(Ok(v.model())),
            Some(Err(e)) => Some(Err(e@)),
        }));
        match d {
            None => {
                return Err(concat_str("File not found: ", paths[idx].as_str()));
            },
            Some(Err(e)) => {
                return Err(e);
            },
            Some(Ok(JsonValue::Object(m))) => {
                proof {
                    lemma_object_model(m);
                }
                add_with_warnings(&mut acc, &mut warnings, m);
            },
            Some(Ok(_)) => {
                return Err("Top-level JSON must be an object".to_string());
            },
        }
        idx += 1;
    }
    proof {
        lemma_object_model(acc);
    }
    Ok((JsonValue::Object(acc), warnings))
}

/// Sets the entries `m` into `acc`, with a warning for each key present.
fn add_with_warnings(acc: &mut Vec<(String, JsonValue)>, warnings: &mut Vec<String>, m: Vec<(String, JsonValue)>)
    ensures
        (entry_models(final(acc)@), string_views(final(warnings)@)) == with_warnings(
            entry_models(m@),
            entry_models(old(acc)@),
            string_views(old(warnings)@),
        ),
{
    let ghost ms = entry_models(m@);
    let ghost target = with_warnings(ms, entry_models(acc@), string_views(warnings@));
    let mut rest = reversed(m);
    assert(ms.skip(0) =~= ms);
    while rest.len() > 0
        invariant
            ms == entry_models(m@),
            target == with_warnings(ms, entry_models(old(acc)@), string_views(old(warnings)@)),
            rest@.len() <= ms.len(),
            forall|j: int| #![trigger rest@[j]] 0 <= j < rest@.len() ==> rest@[j].0@ == ms[ms.len() - 1 - j].0
                && rest@[j].1.model() == ms[ms.len() - 1 - j].1,
            with_warnings(ms.skip(ms.len() - rest@.len()), entry_models(acc@), string_views(warnings@)) == target,
        decreases rest.len(),
    {
        let ghost q = ms.len() - rest@.len();
        let ghost am = entry_models(acc@);
        let (key, value) = rest.pop().unwrap();
        assert(ms.skip(q)[0] == ms[q]);
        assert(ms.skip(q).drop_first() =~= ms.skip(q + 1));
        proof {
            lemma_key_index_bounds(am, key@);
        }
        let pos = find_key(acc, &key);
        if pos < acc.len() {
            let a = concat_str("Warning: Key '", key.as_str());
            let w = concat_str(a.as_str(), "' already exists, overwriting.");
            let ghost wv = string_views(warnings@);
            warnings.push(w);
            assert(string_views(warnings@) =~= wv.push(overwrite_warning(key@)));
        }
        insert_entry(acc, key, value);
    }
    assert(ms.skip(ms.len() as int) =~= Seq::<(Seq<char>, Json)>::empty());
}

} // verus!
