//! Log entries decoded from JSON lines, kept when they pass a filter on level and
//! time.
//!
//! The file is read outside and each line decoded there into an entry; the lines
//! and what decoding each gave are handed in here.
use vstd::prelude::*;
use crate::json_value::JsonValue;
use crate::log_time::{Instant, before, is_before, utc_instant, parse_utc};
use crate::text::{trim, is_blank, string_views, lowercase, to_lowercase, chars_of, chars_eq, concat_str};

verus! {

broadcast use vstd::string::group_string_axioms;

/// One log entry, with the fields other than the three named ones.
#[derive(Debug)]
pub struct LogEntry {
    pub timestamp: String,
    pub level: String,
    pub message: String,
    pub extra: JsonValue,
}

/// Which entries to keep: those at least as severe as `min_level`, and those whose
/// time lies from `start_time` to `end_time` when both are given.
pub struct LogFilter {
    pub min_level: Option<String>,
    pub start_time: Option<Instant>,
    pub end_time: Option<Instant>,
}

/// The rank of a level name, lowest severity first, if it is one.
pub open spec fn level_rank(l: Seq<char>) -> Option<int> {
    if l == "trace"@ {
        Some(0)
    } else if l == "debug"@ {
        Some(1)
    } else if l == "info"@ {
        Some(2)
    } else if l == "warn"@ {
        Some(3)
    } else if l == "error"@ {
        Some(4)
    } else {
        None
    }
}

/// Whether `filter` keeps an entry with these level and timestamp texts.
pub open spec fn keeps(filter: LogFilter, level: Seq<char>, timestamp: Seq<char>) -> bool {
    let level_ok = match filter.min_level {
        Some(m) => match (level_rank(lowercase(level)), level_rank(lowercase(m@))) {
            (Some(e), Some(k)) => e >= k,
            _ => true,
        },
        None => true,
    };
    let time_ok = match (filter.start_time, filter.end_time) {
        (Some(s), Some(e)) => match utc_instant(timestamp) {
            Ok((secs, nanos)) => {
                let t = Instant { secs, nanos };
                !before(t, s) && !before(e, t)
            },
            Err(_) => true,
        },
        _ => true,
    };
    level_ok && time_ok
}

/// The rank of the level named `l`, if it is one.
fn rank_of(l: &str) -> (r: Option<u8>)
    ensures
        match r {
            Some(k) => level_rank(l@) == Some(k as int),
            None => level_rank(l@) is None,
        },
{
    let c = chars_of(l);
    let t = chars_of("trace");
    let d = chars_of("debug");
    let i = chars_of("info");
    let w = chars_of("warn");
    let e = chars_of("error");
    if chars_eq(c.as_slice(), t.as_slice()) {
        Some(0)
    } else if chars_eq(c.as_slice(), d.as_slice()) {
        Some(1)
    } else if chars_eq(c.as_slice(), i.as_slice()) {
        Some(2)
    } else if chars_eq(c.as_slice(), w.as_slice()) {
        Some(3)
    } else if chars_eq(c.as_slice(), e.as_slice()) {
        Some(4)
    } else {
        None
    }
}

impl LogFilter {
    /// Whether the filter keeps `entry`.
    pub fn matches(&self, entry: &LogEntry) -> (b: bool)
        ensures
            b == keeps(*self, entry.level@, entry.timestamp@),
    {
        if let Some(min_level) = &self.min_level {
            let el = to_lowercase(entry.level.as_str());
            let ml = to_lowercase(min_level.as_str());
            match (rank_of(el.as_str()), rank_of(ml.as_str())) {
                (Some(e), Some(k)) => {
                    if e < k {
                        return false;
                    }
                },
                _ => {},
            }
        }
        if let (Some(start), Some(end)) = (self.start_time, self.end_time) {
            if let Ok(t) = parse_utc(entry.timestamp.as_str()) {
                if is_before(t, start) || is_before(end, t) {
                    return false;
                }
            }
        }
        true
    }
}

/// The note for a line that could not be decoded.
pub open spec fn failure_note(line: Seq<char>, err: Seq<char>) -> Seq<char> {
    "Failed to parse line: "@ + line + " - "@ + err
}

/// The entries kept and the notes made for the lines `ls` from position `i` on:
/// blank lines are passed over, entries kept as the filter says, and each line
/// that could not be decoded gets a note.
pub open spec fn filtered_entries(
    ls: Seq<Seq<char>>,
    docs: Seq<Result<(Seq<char>, Seq<char>), Seq<char>>>,
    filter: LogFilter,
    i: int,
    kept: Seq<int>,
    notes: Seq<Seq<char>>,
) -> (Seq<int>, Seq<Seq<char>>)
    decreases ls.len() - i,
{
    if i < 0 || i >= ls.len() {
        (kept, notes)
    } else if trim(ls[i]).len() == 0 {
        filtered_entries(ls, docs, filter, i + 1, kept, notes)
    } else {
        match docs[i] {
            Ok((level, ts)) => if keeps(filter, level, ts) {
                filtered_entries(ls, docs, filter, i + 1, kept.push(i), notes)
            } else {
                filtered_entries(ls, docs, filter, i + 1, kept, notes)
            },
            Err(e) => filtered_entries(ls, docs, filter, i + 1, kept, notes.push(failure_note(ls[i], e))),
        }
    }
}

/// The level and timestamp of each decoded entry, or the decoding error.
pub open spec fn decoded_views(d: Seq<Result<LogEntry, String>>) -> Seq<Result<(Seq<char>, Seq<char>), Seq<char>>> {
    Seq::new(
        d.len(),
        |i: int|
            match d[i] {
                Ok(e) => Ok((e.level@, e.timestamp@)),
                Err(x) => Err(x@),
            },
    )
}

/// The entries of the lines `lines` that `filter` keeps, `decoded[i]` being what
/// decoding `lines[i]` gave, with a note for each line that could not be decoded.
/// The entries kept are given with the positions of their lines.
pub fn parse_log_file(lines: &Vec<String>, decoded: Vec<Result<LogEntry, String>>, filter: &LogFilter) -> (r: (
    Vec<(usize, LogEntry)>,
    Vec<String>,
))
    requires
        lines@.len() == decoded@.len(),
    ensures
        ({
            let (kept, notes) = filtered_entries(
                string_views(lines@),
                decoded_views(decoded@),
                *filter,
                0,
                Seq::empty(),
                Seq::empty(),
            );
            &&& r.0@.len() == kept.len()
            &&& forall|k: int| 0 <= k < kept.len() ==> (#[trigger] r.0@[k]).0 == kept[k]
            &&& forall|k: int| 0 <= k < kept.len() ==> decoded@[kept[k]] == Ok::<LogEntry, String>((#[trigger] r.0@[k]).1)
            &&& string_views(r.1@) == notes
        }),
{
    let ghost ls = string_views(lines@);
    let ghost ds = decoded_views(decoded@);
    let ghost original = decoded@;
    let ghost target = filtered_entries(ls, ds, *filter, 0, Seq::empty(), Seq::empty());
    let n = decoded.len();
    let mut rest = crate::vec_util::reversed(decoded);
    let mut kept: Vec<(usize, LogEntry)> = Vec::new();
    let mut notes: Vec<String> = Vec::new();
    let ghost mut kept_idx: Seq<int> = Seq::empty();
    let mut i: usize = 0;
    assert(string_views(notes@) =~= Seq::<Seq<char>>::empty());
    while i < n
        invariant
            i <= n,
            n == lines@.len(),
            n == original.len(),
            rest@.len() == n - i,
            forall|j: int| #![trigger rest@[j]] 0 <= j < rest@.len() ==> rest@[j] == original[n - 1 - j],
            ls == string_views(lines@),
            ds == decoded_views(original),
            target == filtered_entries(ls, ds, *filter, 0, Seq::empty(), Seq::empty()),
            filtered_entries(ls, ds, *filter, i as int, kept_idx, string_views(notes@)) == target,
            kept@.len() == kept_idx.len(),
            forall|k: int| 0 <= k < kept_idx.len() ==> (#[trigger] kept@[k]).0 == kept_idx[k],
            forall|k: int| 0 <= k < kept_idx.len() ==> 0 <= #[trigger] kept_idx[k] < i,
            forall|k: int| 0 <= k < kept_idx.len() ==> original[kept_idx[k]] == Ok::<LogEntry, String>((#[trigger] kept@[k]).1),
        decreases n - i,
    {
        let d = rest.pop().unwrap();
        assert(d == original[i as int]);
        if !is_blank(lines[i].as_str()) {
            match d {
                Ok(entry) => {
                    if filter.matches(&entry) {
                        let ghost old_idx = kept_idx;
                        let ghost old_kept = kept@;
                        proof {
                            kept_idx = kept_idx.push(i as int);
                        }
                        kept.push((i, entry));
                        assert forall|k: int| 0 <= k < kept_idx.len() implies (#[trigger] kept@[k]).0
                            == kept_idx[k] by {
                            if k < old_idx.len() {
                                assert(kept@[k] == old_kept[k]);
                                assert(kept_idx[k] == old_idx[k]);
                            }
                        }
                        assert forall|k: int| 0 <= k < kept_idx.len() implies 0 <= #[trigger] kept_idx[k] < i + 1 by {
                            if k < old_idx.len() {
                                assert(kept_idx[k] == old_idx[k]);
                            }
                        }
                    }
                },
                Err(e) => {
                    let a = concat_str("Failed to parse line: ", lines[i].as_str());
                    let b = concat_str(a.as_str(), " - ");
                    let ghost nv = string_views(notes@);
                    notes.push(concat_str(b.as_str(), e.as_str()));
                    assert(string_views(notes@) =~= nv.push(failure_note(ls[i as int], e@)));
                },
            }
        }
        i += 1;
    }
    (kept, notes)
}

} // verus!
