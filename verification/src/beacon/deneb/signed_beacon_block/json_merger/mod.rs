//! Merging JSON files: arrays of records deduplicated by their string `id`, and
//! objects merged key by key in depth.
//!
//! The files are read outside; each file's text, or the error met reading it, is
//! handed in here and decoded with `serde_json`.
use vstd::prelude::*;
use crate::json_value::{Json, JsonValue, models, entry_models, lookup, lemma_object_model, lemma_key_index_bounds, find_key};
use crate::vec_util::reversed;
use crate::json_text::{decoded_json_array, decode_json_array};

pub mod by_object;

verus! {

broadcast use vstd::string::group_string_axioms;

/// The string `id` of `v`, when `v` is an object whose `id` is a string.
pub open spec fn string_id(v: Json) -> Option<Seq<char>> {
    match v {
        Json::Object(m) => match lookup(m, "id"@) {
            Some(Json::Str(s)) => Some(s),
            _ => None,
        },
        _ => None,
    }
}

/// The records `items` added to `acc` in order, a record whose string `id` is among
/// `seen` being left out; returns the records and the ids seen.
pub open spec fn dedup_records(items: Seq<Json>, acc: Seq<Json>, seen: Set<Seq<char>>) -> (Seq<Json>, Set<Seq<char>>)
    decreases items.len(),
{
    if items.len() == 0 {
        (acc, seen)
    } else {
        let x = items[0];
        match string_id(x) {
            Some(id) => if seen.contains(id) {
                dedup_records(items.drop_first(), acc, seen)
            } else {
                dedup_records(items.drop_first(), acc.push(x), seen.insert(id))
            },
            None => dedup_records(items.drop_first(), acc.push(x), seen),
        }
    }
}

/// The records of the files `docs` after `acc`, deduplicated by string `id`; an
/// error stops the merge.
pub open spec fn dedup_files(docs: Seq<Result<Seq<Json>, Seq<char>>>, acc: Seq<Json>, seen: Set<Seq<char>>) -> Result<Seq<Json>, Seq<char>>
    decreases docs.len(),
{
    if docs.len() == 0 {
        Ok(acc)
    } else {
        match docs[0] {
            Err(e) => Err(e),
            Ok(items) => {
                let (acc2, seen2) = dedup_records(items, acc, seen);
                dedup_files(docs.drop_first(), acc2, seen2)
            },
        }
    }
}

/// The views of files each holding an array of records.
pub open spec fn record_file_views(d: Seq<Result<Vec<JsonValue>, String>>) -> Seq<Result<Seq<Json>, Seq<char>>> {
    Seq::new(
        d.len(),
        |i: int|
            match d[i] {
                Ok(v) => Ok(models(v@)),
                Err(e) => Err(e@),
            },
    )
}

/// The string `id` of `v`, as `string_id` says.
fn id_of(v: &JsonValue) -> (r: Option<String>)
    ensures
        match r {
            Some(s) => string_id(v.model()) == Some(s@),
            None => string_id(v.model()) is None,
        },
{
    match v {
        JsonValue::Object(m) => {
            proof {
                lemma_object_model(*m);
                lemma_key_index_bounds(entry_models(m@), "id"@);
            }
            let key = "id".to_string();
            let i = find_key(m, &key);
            if i < m.len() {
                match &m[i].1 {
                    JsonValue::String(s) => Some(s.clone()),
                    _ => None,
                }
            } else {
                None
            }
        },
        _ => None,
    }
}

/// Whether `s` is among `seen`.
fn seen_contains(seen: &Vec<String>, s: &String) -> (b: bool)
    ensures
        b == crate::text::string_views(seen@).contains(s@),
{
    let mut i: usize = 0;
    while i < seen.len()
        invariant
            i <= seen@.len(),
            forall|j: int| 0 <= j < i ==> seen@[j]@ != s@,
        decreases seen.len() - i,
    {
        if seen[i] == *s {
            assert(crate::text::string_views(seen@)[i as int] == s@);
            return true;
        }
        i += 1;
    }
    assert forall|j: int| 0 <= j < seen@.len() implies crate::text::string_views(seen@)[j] != s@ by {
    }
    false
}

/// What a file of records gives: the items of the array its text holds, or the
/// error met reading or decoding it.
pub open spec fn array_read_decoding(f: Result<String, String>) -> Result<Seq<Json>, Seq<char>> {
    match f {
        Ok(t) => decoded_json_array(t@),
        Err(e) => Err(e@),
    }
}

/// `array_read_decoding` of each file.
pub open spec fn array_read_decodings(fs: Seq<Result<String, String>>) -> Seq<Result<Seq<Json>, Seq<char>>> {
    Seq::new(fs.len(), |i: int| array_read_decoding(fs[i]))
}

/// The arrays of records of the files, each decoded or with its error.
pub fn decode_record_files(files: &Vec<Result<String, String>>) -> (r: Vec<Result<Vec<JsonValue>, String>>)
    ensures
        record_file_views(r@) == array_read_decodings(files@),
{
    let mut out: Vec<Result<Vec<JsonValue>, String>> = Vec::new();
    let mut i: usize = 0;
    while i < files.len()
        invariant
            i <= files@.len(),
            out@.len() == i,
            record_file_views(out@) == array_read_decodings(files@).take(i as int),
        decreases files.len() - i,
    {
        let d = match &files[i] {
            Err(e) => Err(e.clone()),
            Ok(t) => decode_json_array(t.as_str()),
        };
        let ghost before = out@;
        out.push(d);
        assert forall|j: int| 0 <= j < i + 1 implies #[trigger] record_file_views(out@)[j]
            == array_read_decodings(files@).take(i + 1)[j] by {
            if j < i {
                assert(out@[j] == before[j]);
                assert(record_file_views(before)[j] == array_read_decodings(files@).take(i as int)[j]);
            }
        }
        assert(record_file_views(out@) =~= array_read_decodings(files@).take(i + 1));
        i += 1;
    }
    assert(array_read_decodings(files@).take(i as int) =~= array_read_decodings(files@));
    out
}

/// The records of all the files' arrays, in order, each record with a string `id`
/// kept only the first time its `id` comes; `files` holds the files' texts, or the
/// errors met reading them.
pub fn merge_json_files(files: &Vec<Result<String, String>>) -> (r: Result<Vec<JsonValue>, String>)
    ensures
        match dedup_files(array_read_decodings(files@), Seq::empty(), Set::empty()) {
            Ok(items) => r matches Ok(v) && models(v@) == items,
            Err(e) => r matches Err(m) && m@ == e,
        },
{
    merge_documents(decode_record_files(files))
}

/// The records of all the files, in order, each record with a string `id` kept
/// only the first time its `id` comes; the documents are handed in decoded.
pub fn merge_documents(documents: Vec<Result<Vec<JsonValue>, String>>) -> (r: Result<Vec<JsonValue>, String>)
    ensures
        match dedup_files(record_file_views(documents@), Seq::empty(), Set::empty()) {
            Ok(items) => r matches Ok(v) && models(v@) == items,
            Err(e) => r matches Err(m) && m@ == e,
        },
{
    let ghost ds = record_file_views(documents@);
    let ghost target = dedup_files(ds, Seq::empty(), Set::empty());
    let mut rest = reversed(documents);
    let mut merged: Vec<JsonValue> = Vec::new();
    let mut seen: Vec<String> = Vec::new();
    assert(ds.skip(0) =~= ds);
    assert(models(merged@) =~= Seq::<Json>::empty());
    assert(crate::text::string_views(seen@).to_set() =~= Set::<Seq<char>>::empty());
    while rest.len() > 0
        invariant
            rest@.len() <= ds.len(),
            ds == record_file_views(documents@),
            target == dedup_files(ds, Seq::empty(), Set::empty()),
            forall|j: int| #![trigger rest@[j]] 0 <= j < rest@.len() ==> record_file_views(rest@)[j] == ds[ds.len() - 1 - j],
            dedup_files(ds.skip(ds.len() - rest@.len()), models(merged@), crate::text::string_views(seen@).to_set()) == target,
        decreases rest.len(),
    {
        let ghost k = ds.len() - rest@.len();
        let ghost last = rest@.len() - 1;
        assert(record_file_views(rest@)[last] == ds[k]);
        let d = rest.pop().unwrap();
        assert(ds[k] == (match d {
            Ok(v) => Ok(models(v@)),
            Err(e) => Err(e@),
        }));
        assert(ds.skip(k)[0] == ds[k]);
        assert(ds.skip(k).drop_first() =~= ds.skip(k + 1));
        let items = match d {
            Err(e) => {
                return Err(e);
            },
            Ok(items) => items,
        };
        let ghost im = models(items@);
        let ghost goal = dedup_records(im, models(merged@), crate::text::string_views(seen@).to_set());
        let mut pending = reversed(items);
        assert(im.skip(0) =~= im);
        while pending.len() > 0
            invariant
                pending@.len() <= im.len(),
                forall|j: int| #![trigger pending@[j]] 0 <= j < pending@.len() ==> pending@[j].model() == im[im.len() - 1 - j],
                dedup_records(im.skip(im.len() - pending@.len()), models(merged@), crate::text::string_views(seen@).to_set()) == goal,
            decreases pending.len(),
        {
            let ghost q = im.len() - pending@.len();
            let x = pending.pop().unwrap();
            assert(im.skip(q)[0] == im[q]);
            assert(im.skip(q).drop_first() =~= im.skip(q + 1));
            let ghost before = models(merged@);
            let ghost xm = x.model();
            match id_of(&x) {
                Some(id) => {
                    if !seen_contains(&seen, &id) {
                        let ghost sv = crate::text::string_views(seen@);
                        let ghost idv = id@;
                        seen.push(id);
                        assert(crate::text::string_views(seen@) =~= sv.push(idv));
                        proof {
                            sv.lemma_push_to_set_commute(idv);
                        }
                        merged.push(x);
                        assert(models(merged@) =~= before.push(xm));
                    }
                },
                None => {
                    merged.push(x);
                    assert(models(merged@) =~= before.push(xm));
                },
            }
        }
        assert(im.skip(im.len() as int) =~= Seq::<Json>::empty());
    }
    assert(ds.skip(ds.len() as int) =~= Seq::<Result<Seq<Json>, Seq<char>>>::empty());
    Ok(merged)
}

} // verus!
