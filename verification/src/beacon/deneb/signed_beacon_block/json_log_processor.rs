//! Log entries read from JSON lines, kept within a time window, and picked by
//! level.
//!
//! The file is read outside and its lines handed in here; each is decoded with
//! `serde_json`.
use vstd::prelude::*;
use crate::json_text::{decodings, decode_json};
use crate::json_value::{Json, JsonValue, entry_models, lookup, lemma_object_model, lemma_key_index_bounds, find_key, deep_clone};
use crate::log_time::{Instant, before, is_before, rfc3339_instant, parse_rfc3339};
use crate::text::{trim, is_blank, string_views, uppercase, to_uppercase, str_eq};

verus! {

broadcast use vstd::string::group_string_axioms;

/// One log entry.
#[derive(Debug)]
pub struct LogEntry {
    pub timestamp: Instant,
    pub level: String,
    pub message: String,
    pub metadata: JsonValue,
}

/// The string that field `key` of `v` holds, if `v` is an object and it does.
pub open spec fn string_field(v: Json, key: Seq<char>) -> Option<Seq<char>> {
    match v {
        Json::Object(o) => match lookup(o, key) {
            Some(Json::Str(s)) => Some(s),
            _ => None,
        },
        _ => None,
    }
}

/// The value of field `key` of `v`, or null.
pub open spec fn field_or_null(v: Json, key: Seq<char>) -> Json {
    match v {
        Json::Object(o) => match lookup(o, key) {
            Some(x) => x,
            None => Json::Null,
        },
        _ => Json::Null,
    }
}

/// The view of an entry: its instant, level, message and metadata.
pub open spec fn entry_view(e: LogEntry) -> (Instant, Seq<char>, Seq<char>, Json) {
    (e.timestamp, e.level@, e.message@, e.metadata.model())
}

/// The views of entries.
pub open spec fn entry_views(es: Seq<LogEntry>) -> Seq<(Instant, Seq<char>, Seq<char>, Json)> {
    Seq::new(es.len(), |i: int| entry_view(es[i]))
}

/// Whether instant `t` lies in the window from `min` to `max`, each bound optional.
pub open spec fn in_window(t: Instant, min: Option<Instant>, max: Option<Instant>) -> bool {
    &&& (min matches Some(m) ==> !before(t, m))
    &&& (max matches Some(m) ==> !before(m, t))
}

/// What the line whose decoding gave `doc` contributes: an error, nothing, or an
/// entry.
pub open spec fn line_outcome(doc: Result<Json, Seq<char>>, min: Option<Instant>, max: Option<Instant>) -> Result<
    Option<(Instant, Seq<char>, Seq<char>, Json)>,
    Seq<char>,
> {
    match doc {
        Err(e) => Err(e),
        Ok(v) => match string_field(v, "timestamp"@) {
            None => Err("Missing or invalid timestamp field"@),
            Some(ts) => match rfc3339_instant(ts) {
                Err(e) => Err(e),
                Ok((secs, nanos)) => {
                    let t = Instant { secs, nanos };
                    if in_window(t, min, max) {
                        Ok(
                            Some(
                                (
                                    t,
                                    match string_field(v, "level"@) {
                                        Some(l) => l,
                                        None => "UNKNOWN"@,
                                    },
                                    match string_field(v, "message"@) {
                                        Some(m) => m,
                                        None => Seq::empty(),
                                    },
                                    field_or_null(v, "metadata"@),
                                ),
                            ),
                        )
                    } else {
                        Ok(None)
                    }
                },
            },
        },
    }
}

/// The entries of the lines `ls` (with their decodings `docs`) from position `i`
/// on, after `acc`: blank lines are passed over and the first error stops it.
pub open spec fn log_entries(
    ls: Seq<Seq<char>>,
    docs: Seq<Result<Json, Seq<char>>>,
    i: int,
    acc: Seq<(Instant, Seq<char>, Seq<char>, Json)>,
    min: Option<Instant>,
    max: Option<Instant>,
) -> Result<Seq<(Instant, Seq<char>, Seq<char>, Json)>, Seq<char>>
    decreases ls.len() - i,
{
    if i < 0 || i >= ls.len() {
        Ok(acc)
    } else if trim(ls[i]).len() == 0 {
        log_entries(ls, docs, i + 1, acc, min, max)
    } else {
        match line_outcome(docs[i], min, max) {
            Err(e) => Err(e),
            Ok(None) => log_entries(ls, docs, i + 1, acc, min, max),
            Ok(Some(e)) => log_entries(ls, docs, i + 1, acc.push(e), min, max),
        }
    }
}

/// The string held by field `key` of `v`, if any.
fn string_field_of(v: &JsonValue, key: &str) -> (r: Option<String>)
    ensures
        match r {
            Some(s) => string_field(v.model(), key@) == Some(s@),
            None => string_field(v.model(), key@) is None,
        },
{
    match v {
        JsonValue::Object(o) => {
            proof {
                lemma_object_model(*o);
                lemma_key_index_bounds(entry_models(o@), key@);
            }
            let k = key.to_string();
            let i = find_key(o, &k);
            if i < o.len() {
                match &o[i].1 {
                    JsonValue::String(s) => Some(s.clone()),
                    _ => None,
                }
            } else {
                None
            }
        },
        _ => None,
    }
}

/// A copy of field `key` of `v`, or null.
fn field_copy(v: &JsonValue, key: &str) -> (r: JsonValue)
    ensures
        r.model() == field_or_null(v.model(), key@),
{
    match v {
        JsonValue::Object(o) => {
            proof {
                lemma_object_model(*o);
                lemma_key_index_bounds(entry_models(o@), key@);
            }
            let k = key.to_string();
            let i = find_key(o, &k);
            if i < o.len() {
                deep_clone(&o[i].1)
            } else {
                JsonValue::Null
            }
        },
        _ => JsonValue::Null,
    }
}

/// The entries of the log whose lines are `lines`, each line that is not blank
/// decoded as JSON; entries outside the window from `min_timestamp` to
/// `max_timestamp` are left out.
pub fn parse_json_log_file(
    lines: &Vec<String>,
    min_timestamp: Option<Instant>,
    max_timestamp: Option<Instant>,
) -> (r: Result<Vec<LogEntry>, String>)
    ensures
        match log_entries(
            string_views(lines@),
            decodings(string_views(lines@)),
            0,
            Seq::empty(),
            min_timestamp,
            max_timestamp,
        ) {
            Ok(es) => r matches Ok(v) && entry_views(v@) == es,
            Err(e) => r matches Err(m) && m@ == e,
        },
{
    let ghost ls = string_views(lines@);
    let ghost ds = decodings(ls);
    let ghost target = log_entries(ls, ds, 0, Seq::empty(), min_timestamp, max_timestamp);
    let mut entries: Vec<LogEntry> = Vec::new();
    let mut i: usize = 0;
    assert(entry_views(entries@) =~= Seq::<(Instant, Seq<char>, Seq<char>, Json)>::empty());
    while i < lines.len()
        invariant
            i <= lines@.len(),
            ls == string_views(lines@),
            ds == decodings(ls),
            target == log_entries(ls, ds, 0, Seq::empty(), min_timestamp, max_timestamp),
            log_entries(ls, ds, i as int, entry_views(entries@), min_timestamp, max_timestamp) == target,
        decreases lines.len() - i,
    {
        if !is_blank(lines[i].as_str()) {
            let parsed_line = decode_json(lines[i].as_str());
            match &parsed_line {
                Err(e) => {
                    return Err(e.clone());
                },
                Ok(v) => {
                    let ts = match string_field_of(v, "timestamp") {
                        None => {
                            return Err("Missing or invalid timestamp field".to_string());
                        },
                        Some(t) => t,
                    };
                    let t = match parse_rfc3339(ts.as_str()) {
                        Err(e) => {
                            return Err(e);
                        },
                        Ok(t) => t,
                    };
                    let early = match min_timestamp {
                        Some(m) => is_before(t, m),
                        None => false,
                    };
                    let late = match max_timestamp {
                        Some(m) => is_before(m, t),
                        None => false,
                    };
                    if !early && !late {
                        let level = match string_field_of(v, "level") {
                            Some(l) => l,
                            None => "UNKNOWN".to_string(),
                        };
                        let message = match string_field_of(v, "message") {
                            Some(m) => m,
                            None => String::new(),
                        };
                        let metadata = field_copy(v, "metadata");
                        let ghost before_entries = entry_views(entries@);
                        let entry = LogEntry { timestamp: t, level, message, metadata };
                        let ghost ev = entry_view(entry);
                        entries.push(entry);
                        assert(entry_views(entries@) =~= before_entries.push(ev));
                    }
                },
            }
        }
        i += 1;
    }
    Ok(entries)
}

/// Whether `level` and `wanted` are alike once made capitals.
fn same_level(level: &str, wanted: &str) -> (b: bool)
    ensures
        b == (uppercase(level@) == uppercase(wanted@)),
{
    let a = to_uppercase(level);
    let b = to_uppercase(wanted);
    str_eq(a.as_str(), b.as_str())
}

/// The positions among the first `n` entries of `es` whose level is `level` once
/// both are made capitals.
pub open spec fn level_positions(es: Seq<LogEntry>, level: Seq<char>, n: int) -> Seq<usize>
    decreases n,
{
    if n <= 0 {
        Seq::empty()
    } else {
        let r = level_positions(es, level, n - 1);
        if uppercase(es[n - 1].level@) == uppercase(level) {
            r.push((n - 1) as usize)
        } else {
            r
        }
    }
}

/// The positions of the entries whose level is `level`, whatever the case.
pub fn filter_logs_by_level(entries: &[LogEntry], level: &str) -> (r: Vec<usize>)
    ensures
        r@ == level_positions(entries@, level@, entries@.len() as int),
{
    let mut out: Vec<usize> = Vec::new();
    let mut i: usize = 0;
    while i < entries.len()
        invariant
            i <= entries@.len(),
            out@ == level_positions(entries@, level@, i as int),
        decreases entries.len() - i,
    {
        if same_level(entries[i].level.as_str(), level) {
            out.push(i);
        }
        i += 1;
    }
    out
}

/// The messages of the entries whose level is `ERROR`, whatever the case.
pub fn extract_error_messages(entries: &[LogEntry]) -> (r: Vec<String>)
    ensures
        string_views(r@) == error_messages(entries@),
{
    let mut out: Vec<String> = Vec::new();
    let mut i: usize = 0;
    while i < entries.len()
        invariant
            i <= entries@.len(),
            string_views(out@) == error_messages(entries@.take(i as int)),
        decreases entries.len() - i,
    {
        assert(entries@.take(i + 1).drop_last() =~= entries@.take(i as int));
        let up = to_uppercase(entries[i].level.as_str());
        if str_eq(up.as_str(), "ERROR") {
            let ghost before = string_views(out@);
            out.push(entries[i].message.clone());
            assert(string_views(out@) =~= before.push(entries@[i as int].message@));
        }
        i += 1;
    }
    assert(entries@.take(entries@.len() as int) =~= entries@);
    out
}

/// The messages of the entries `es` whose level is `ERROR` once made capitals.
pub open spec fn error_messages(es: Seq<LogEntry>) -> Seq<Seq<char>>
    decreases es.len(),
{
    if es.len() == 0 {
        Seq::empty()
    } else {
        let r = error_messages(es.drop_last());
        if uppercase(es.last().level@) == "ERROR"@ {
            r.push(es.last().message@)
        } else {
            r
        }
    }
}

} // verus!
