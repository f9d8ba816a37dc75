//! Merging the top-level objects of JSON files, reporting keys that a later file
//! overwrites; merging many values deeply.
//!
//! The files are read outside; each file's text, or the error met reading it, is
//! handed in here with the file's name and decoded with `serde_json`.
use vstd::prelude::*;
use crate::json_value::{Json, JsonValue, entry_models, lookup, obj_insert, distinct_keys, lemma_object_model, lemma_key_index_bounds, find_key, insert_entry};
use crate::text::{concat_str, string_views};
use crate::vec_util::reversed;
use crate::json_text::{decoded_json, decode_json};

pub mod missing_skipped;
pub mod deep;

verus! {

broadcast use vstd::string::group_string_axioms;

/// What went wrong with a file.
pub enum FileProblem {
    /// It could not be read; the reason is given.
    Unreadable(String),
    /// It is not JSON; the reason is given.
    InvalidJson(String),
}

/// The view of a document: its value, or what went wrong and why.
pub open spec fn problem_doc_views(d: Seq<Result<JsonValue, FileProblem>>) -> Seq<Result<Json, (bool, Seq<char>)>> {
    Seq::new(
        d.len(),
        |i: int|
            match d[i] {
                Ok(v) => Ok(v.model()),
                Err(FileProblem::Unreadable(e)) => Err((true, e@)),
                Err(FileProblem::InvalidJson(e)) => Err((false, e@)),
            },
    )
}

/// The note for key `k` of file `cur` overwriting a value from file `prev`.
pub open spec fn conflict_note(k: Seq<char>, prev: Seq<char>, cur: Seq<char>) -> Seq<char> {
    "Conflict: Key '"@ + k + "' already exists from file "@ + prev + ", overwritten by file "@ + cur
}

/// The entries `m` of file `cur` set in order into `acc`, with a note in `log` for
/// each key already present.
pub open spec fn entries_with_notes(
    m: Seq<(Seq<char>, Json)>,
    acc: Seq<(Seq<char>, Json)>,
    log: Seq<Seq<char>>,
    prev: Seq<char>,
    cur: Seq<char>,
) -> (Seq<(Seq<char>, Json)>, Seq<Seq<char>>)
    decreases m.len(),
{
    if m.len() == 0 {
        (acc, log)
    } else {
        let (k, v) = m[0];
        let log2 = if lookup(acc, k) is Some {
            log.push(conflict_note(k, prev, cur))
        } else {
            log
        };
        entries_with_notes(m.drop_first(), obj_insert(acc, k, v), log2, prev, cur)
    }
}

/// The merge of the documents from position `i` on, into `acc` with notes `log`:
/// a problem with a file or a document that is not an object stops it.
pub open spec fn noted_merge(
    docs: Seq<Result<Json, (bool, Seq<char>)>>,
    paths: Seq<Seq<char>>,
    i: int,
    acc: Seq<(Seq<char>, Json)>,
    log: Seq<Seq<char>>,
) -> Result<(Seq<(Seq<char>, Json)>, Seq<Seq<char>>), Seq<char>>
    decreases docs.len() - i,
{
    if i < 0 || i >= docs.len() {
        Ok((acc, log))
    } else {
        let p = paths[i];
        match docs[i] {
            Err((true, e)) => Err("Failed to read "@ + p + ": "@ + e),
            Err((false, e)) => Err("Invalid JSON in "@ + p + ": "@ + e),
            Ok(Json::Object(m)) => {
                let (acc2, log2) = entries_with_notes(m, acc, log, paths[i - 1], p);
                noted_merge(docs, paths, i + 1, acc2, log2)
            },
            Ok(_) => Err("File "@ + p + " does not contain a JSON object"@),
        }
    }
}

/// What a file gives: its text decoded, or what went wrong reading or decoding it.
pub open spec fn problem_decoding(f: Result<String, String>) -> Result<Json, (bool, Seq<char>)> {
    match f {
        Err(e) => Err((true, e@)),
        Ok(t) => match decoded_json(t@) {
            Ok(v) => Ok(v),
            Err(e) => Err((false, e)),
        },
    }
}

/// `problem_decoding` of each file.
pub open spec fn problem_read_decodings(fs: Seq<Result<String, String>>) -> Seq<Result<Json, (bool, Seq<char>)>> {
    Seq::new(fs.len(), |i: int| problem_decoding(fs[i]))
}

/// The documents of the files, each decoded or with what went wrong; an object
/// decoded holds each key once.
pub fn decode_problem_files(files: &Vec<Result<String, String>>) -> (r: Vec<Result<JsonValue, FileProblem>>)
    ensures
        problem_doc_views(r@) == problem_read_decodings(files@),
        forall|i: int| 0 <= i < r@.len() ==> (#[trigger] r@[i] matches Ok(JsonValue::Object(m)) ==> distinct_keys(
            entry_models(m@),
        )),
{
    let mut out: Vec<Result<JsonValue, FileProblem>> = Vec::new();
    let mut i: usize = 0;
    while i < files.len()
        invariant
            i <= files@.len(),
            out@.len() == i,
            problem_doc_views(out@) == problem_read_decodings(files@).take(i as int),
            forall|j: int| 0 <= j < out@.len() ==> (#[trigger] out@[j] matches Ok(JsonValue::Object(m)) ==> distinct_keys(
                entry_models(m@),
            )),
        decreases files.len() - i,
    {
        let d = match &files[i] {
            Err(e) => Err(FileProblem::Unreadable(e.clone())),
            Ok(t) => match decode_json(t.as_str()) {
                Ok(v) => Ok(v),
                Err(e) => Err(FileProblem::InvalidJson(e)),
            },
        };
        let ghost before = out@;
        out.push(d);
        assert forall|j: int| 0 <= j < i + 1 implies #[trigger] problem_doc_views(out@)[j]
            == problem_read_decodings(files@).take(i + 1)[j] by {
            if j < i {
                assert(out@[j] == before[j]);
                assert(problem_doc_views(before)[j] == problem_read_decodings(files@).take(i as int)[j]);
            }
        }
        assert(problem_doc_views(out@) =~= problem_read_decodings(files@).take(i + 1));
        i += 1;
    }
    assert(problem_read_decodings(files@).take(i as int) =~= problem_read_decodings(files@));
    out
}

/// One object with the keys of all the files' objects, a later file's value for a
/// key replacing an earlier one, and a note for each key replaced; `paths` names
/// the files and `files` holds their texts, or the errors met reading them.
pub fn merge_json_files(paths: &Vec<String>, files: &Vec<Result<String, String>>) -> (r: Result<
    (JsonValue, Vec<String>),
    String,
>)
    requires
        paths@.len() == files@.len(),
    ensures
        paths@.len() == 0 ==> (r matches Err(m) && m@ == "No input files provided"@),
        paths@.len() > 0 ==> (match noted_merge(
            problem_read_decodings(files@),
            string_views(paths@),
            0,
            Seq::empty(),
            Seq::empty(),
        ) {
            Ok((es, log)) => r matches Ok((v, notes)) && v.model() == Json::Object(es) && string_views(notes@) == log,
            Err(e) => r matches Err(m) && m@ == e,
        }),
{
    let documents = decode_problem_files(files);
    merge_documents(paths, documents)
}

/// One object with the keys of all the files' objects, a later file's value for a
/// key replacing an earlier one, and a note for each key replaced; `paths` names
/// the files; the documents are handed in decoded. Two keys alike in the first
/// file's object would have the note name a file before the first, so they are
/// ruled out.
pub fn merge_documents(paths: &Vec<String>, documents: Vec<Result<JsonValue, FileProblem>>) -> (r: Result<
    (JsonValue, Vec<String>),
    String,
>)
    requires
        paths@.len() == documents@.len(),
        documents@.len() > 0 ==> (documents@[0] matches Ok(JsonValue::Object(m)) ==> distinct_keys(
            entry_models(m@),
        )),
    ensures
        paths@.len() == 0 ==> (r matches Err(m) && m@ == "No input files provided"@),
        paths@.len() > 0 ==> (match noted_merge(
            problem_doc_views(documents@),
            string_views(paths@),
            0,
            Seq::empty(),
            Seq::empty(),
        ) {
            Ok((es, log)) => r matches Ok((v, notes)) && v.model() == Json::Object(es) && string_views(notes@) == log,
            Err(e) => r matches Err(m) && m@ == e,
        }),
{
    if paths.len() == 0 {
        return Err("No input files provided".to_string());
    }
    let ghost ds = problem_doc_views(documents@);
    let ghost ps = string_views(paths@);
    let ghost target = noted_merge(ds, ps, 0, Seq::empty(), Seq::empty());
    proof {
        if documents@.len() > 0 {
            match documents@[0] {
                Ok(JsonValue::Object(m)) => {
                    lemma_object_model(m);
                },
                _ => {},
            }
        }
    }
    let n = documents.len();
    let mut rest = reversed(documents);
    let mut acc: Vec<(String, JsonValue)> = Vec::new();
    let mut notes: Vec<String> = Vec::new();
    let mut idx: usize = 0;
    assert(entry_models(acc@) =~= Seq::<(Seq<char>, Json)>::empty());
    assert(string_views(notes@) =~= Seq::<Seq<char>>::empty());
    while rest.len() > 0
        invariant
            n == ds.len(),
            ds.len() == ps.len(),
            ps == string_views(paths@),
            ds == problem_doc_views(documents@),
            target == noted_merge(ds, ps, 0, Seq::empty(), Seq::empty()),
            idx + rest@.len() == n,
            forall|j: int| #![trigger rest@[j]] 0 <= j < rest@.len() ==> problem_doc_views(rest@)[j] == ds[ds.len() - 1 - j],
            noted_merge(ds, ps, idx as int, entry_models(acc@), string_views(notes@)) == target,
            idx == 0 ==> entry_models(acc@).len() == 0,
            idx == 0 && ds.len() > 0 ==> (ds[0] matches Ok(Json::Object(m)) ==> distinct_keys(m)),
        decreases rest.len(),
    {
        let ghost last = rest@.len() - 1;
        assert(problem_doc_views(rest@)[last] == ds[idx as int]);
        let d = rest.pop().unwrap();
        assert(ds[idx as int] == (match d {
            Ok(v) => Ok(v.model()),
            Err(FileProblem::Unreadable(e)) => Err((true, e@)),
            Err(FileProblem::InvalidJson(e)) => Err((false, e@)),
        }));
        match d {
            Err(FileProblem::Unreadable(e)) => {
                let a = concat_str("Failed to read ", paths[idx].as_str());
                let b = concat_str(a.as_str(), ": ");
                return Err(concat_str(b.as_str(), e.as_str()));
            },
            Err(FileProblem::InvalidJson(e)) => {
                let a = concat_str("Invalid JSON in ", paths[idx].as_str());
                let b = concat_str(a.as_str(), ": ");
                return Err(concat_str(b.as_str(), e.as_str()));
            },
            Ok(JsonValue::Object(m)) => {
                proof {
                    lemma_object_model(m);
                }
                add_with_notes(&mut acc, &mut notes, m, paths, idx);
            },
            Ok(_) => {
                let a = concat_str("File ", paths[idx].as_str());
                return Err(concat_str(a.as_str(), " does not contain a JSON object"));
            },
        }
        idx += 1;
    }
    proof {
        lemma_object_model(acc);
    }
    Ok((JsonValue::Object(acc), notes))
}

/// Sets the entries `m` of file `paths[idx]` into `acc`, noting in `notes` each key
/// already present.
fn add_with_notes(
    acc: &mut Vec<(String, JsonValue)>,
    notes: &mut Vec<String>,
    m: Vec<(String, JsonValue)>,
    paths: &Vec<String>,
    idx: usize,
)
    requires
        idx < paths@.len(),
        idx == 0 ==> entry_models(old(acc)@).len() == 0 && distinct_keys(entry_models(m@)),
    ensures
        (entry_models(final(acc)@), string_views(final(notes)@)) == entries_with_notes(
            entry_models(m@),
            entry_models(old(acc)@),
            string_views(old(notes)@),
            string_views(paths@)[idx - 1],
            string_views(paths@)[idx as int],
        ),
{
    let ghost ms = entry_models(m@);
    let ghost prev = string_views(paths@)[idx - 1];
    let ghost cur = string_views(paths@)[idx as int];
    let ghost target = entries_with_notes(ms, entry_models(acc@), string_views(notes@), prev, cur);
    let mut rest = reversed(m);
    assert(ms.skip(0) =~= ms);
    while rest.len() > 0
        invariant
            idx < paths@.len(),
            ms == entry_models(m@),
            prev == string_views(paths@)[idx - 1],
            cur == string_views(paths@)[idx as int],
            rest@.len() <= ms.len(),
            forall|j: int| #![trigger rest@[j]] 0 <= j < rest@.len() ==> rest@[j].0@ == ms[ms.len() - 1 - j].0
                && rest@[j].1.model() == ms[ms.len() - 1 - j].1,
            entries_with_notes(ms.skip(ms.len() - rest@.len()), entry_models(acc@), string_views(notes@), prev, cur) == target,
            idx == 0 ==> distinct_keys(ms) && forall|q: int| 0 <= q < entry_models(acc@).len()
                ==> exists|p: int| 0 <= p < ms.len() - rest@.len() && #[trigger] entry_models(acc@)[q].0 == ms[p].0,
        decreases rest.len(),
    {
        let ghost k = ms.len() - rest@.len();
        let ghost am = entry_models(acc@);
        let (key, value) = rest.pop().unwrap();
        assert(ms.skip(k)[0] == ms[k]);
        assert(ms.skip(k).drop_first() =~= ms.skip(k + 1));
        proof {
            lemma_key_index_bounds(am, key@);
        }
        let pos = find_key(acc, &key);
        if pos < acc.len() {
            proof {
                if idx == 0 {
                    let p = choose|p: int| 0 <= p < k && #[trigger] am[pos as int].0 == ms[p].0;
                    assert(ms[p].0 == ms[k].0);
                    assert(ms[p].0 != ms[k].0);
                }
            }
            let prev_name = &paths[idx - 1];
            let a = concat_str("Conflict: Key '", key.as_str());
            let b = concat_str(a.as_str(), "' already exists from file ");
            let c = concat_str(b.as_str(), prev_name.as_str());
            let e = concat_str(c.as_str(), ", overwritten by file ");
            let f = concat_str(e.as_str(), paths[idx].as_str());
            let ghost nv = string_views(notes@);
            notes.push(f);
            assert(string_views(notes@) =~= nv.push(conflict_note(key@, prev, cur)));
        }
        let ghost kv = key@;
        insert_entry(acc, key, value);
        proof {
            if idx == 0 {
                assert forall|q: int| 0 <= q < entry_models(acc@).len() implies exists|p: int|
                    0 <= p < k + 1 && #[trigger] entry_models(acc@)[q].0 == ms[p].0 by {
                    if q < am.len() {
                        if entry_models(acc@)[q].0 == am[q].0 {
                            let p = choose|p: int| 0 <= p < k && #[trigger] am[q].0 == ms[p].0;
                            assert(entry_models(acc@)[q].0 == ms[p].0);
                        } else {
                            assert(entry_models(acc@)[q].0 == ms[k].0);
                        }
                    } else {
                        assert(entry_models(acc@)[q].0 == ms[k].0);
                    }
                }
            }
        }
    }
    assert(ms.skip(ms.len() as int) =~= Seq::<(Seq<char>, Json)>::empty());
}

} // verus!
