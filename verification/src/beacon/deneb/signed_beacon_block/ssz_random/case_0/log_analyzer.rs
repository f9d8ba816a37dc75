//! Log lines of the form `YYYY-MM-DD hh:mm:ss [LEVEL] message`: the entries found,
//! how many there are of each level, and the entries of one level.
//!
//! The file is read outside; its lines (or the error met reading one) are handed
//! in here. The level counts are kept in the order the levels were first seen.
use vstd::prelude::*;
use crate::text::str_eq;
use crate::json_value::{lookup, obj_insert, key_index, lemma_key_index};
use crate::beacon::deneb::signed_beacon_block::csv_processor::line_views;

verus! {

/// The pattern of a log line: a timestamp, a level in brackets, and a message.
pub open spec fn log_line_pattern() -> Seq<char> {
    "(\\d{4}-\\d{2}-\\d{2} \\d{2}:\\d{2}:\\d{2}) \\[(\\w+)\\] (.+)"@
}

/// What `regex::Regex::new` reports for `pattern`: `None` when it compiles, else
/// the `Display` text of the error.
pub uninterp spec fn regex_error(pattern: Seq<char>) -> Option<Seq<char>>;

/// What `Regex::captures` of the compiled `pattern` gives for `line`: `None` when
/// nothing matches, else each group of the first match (group 0 the whole match),
/// `None` for a group that took no part.
pub uninterp spec fn regex_search(pattern: Seq<char>, line: Seq<char>) -> Option<Seq<Option<Seq<char>>>>;

/// The views of optional texts.
pub open spec fn group_views(gs: Seq<Option<String>>) -> Seq<Option<Seq<char>>> {
    Seq::new(
        gs.len(),
        |i: int|
            match gs[i] {
                Some(t) => Some(t@),
                None => None,
            },
    )
}

/// `Regex::new(pattern)` and then `captures(line)` of the `regex` crate: the
/// compile error's text, or the groups of the first match in `line`, or `None`
/// when there is none. Which match is first, and what the groups hold, is named,
/// not stated.
#[verifier::external_body]
fn regex_captures(pattern: &str, line: &str) -> (r: Result<Option<Vec<Option<String>>>, String>)
    ensures
        match regex_error(pattern@) {
            Some(e) => r matches Err(m) && m@ == e,
            None => match regex_search(pattern@, line@) {
                None => r matches Ok(None),
                Some(gs) => r matches Ok(Some(v)) && group_views(v@) == gs,
            },
        },
{
    match regex::Regex::new(pattern) {
        Err(e) => Err(e.to_string()),
        Ok(re) => Ok(re.captures(line).map(|c| c.iter().map(|m| m.map(|m| m.as_str().to_string())).collect())),
    }
}

/// The timestamp, level and message that the log-line pattern captures in
/// `line`, if it matches with all three groups.
pub open spec fn log_captures(line: Seq<char>) -> Option<(Seq<char>, Seq<char>, Seq<char>)> {
    match regex_search(log_line_pattern(), line) {
        Some(gs) => if gs.len() >= 4 && gs[1] is Some && gs[2] is Some && gs[3] is Some {
            Some((gs[1]->0, gs[2]->0, gs[3]->0))
        } else {
            None
        },
        None => None,
    }
}

/// The fields of a log line: what the pattern's three groups capture in it.
fn capture_log_line(pattern: &str, line: &str) -> (r: Result<Option<(String, String, String)>, String>)
    requires
        pattern@ == log_line_pattern(),
    ensures
        match regex_error(pattern@) {
            Some(e) => r matches Err(m) && m@ == e,
            None => match log_captures(line@) {
                None => r matches Ok(None),
                Some((t, l, m)) => r matches Ok(Some(x)) && x.0@ == t && x.1@ == l && x.2@ == m,
            },
        },
{
    match regex_captures(pattern, line) {
        Err(e) => Err(e),
        Ok(None) => Ok(None),
        Ok(Some(gs)) => {
            if gs.len() >= 4 {
                assert(group_views(gs@)[1] == match gs@[1] { Some(t) => Some(t@), None => None::<Seq<char>> });
                assert(group_views(gs@)[2] == match gs@[2] { Some(t) => Some(t@), None => None::<Seq<char>> });
                assert(group_views(gs@)[3] == match gs@[3] { Some(t) => Some(t@), None => None::<Seq<char>> });
                match (&gs[1], &gs[2], &gs[3]) {
                    (Some(t), Some(l), Some(m)) => Ok(Some((t.clone(), l.clone(), m.clone()))),
                    _ => Ok(None),
                }
            } else {
                Ok(None)
            }
        },
    }
}

/// One log entry.
#[derive(Debug)]
pub struct LogEntry {
    pub timestamp: String,
    pub level: String,
    pub message: String,
}

/// The view of an entry.
pub open spec fn entry_view(e: LogEntry) -> (Seq<char>, Seq<char>, Seq<char>) {
    (e.timestamp@, e.level@, e.message@)
}

/// The views of entries.
pub open spec fn entry_views(es: Seq<LogEntry>) -> Seq<(Seq<char>, Seq<char>, Seq<char>)> {
    Seq::new(es.len(), |i: int| entry_view(es[i]))
}

/// The entries found on the lines `ls` from `i` on, after `acc`, and the read
/// error that stopped it, if any.
pub open spec fn log_entries_from(
    ls: Seq<Result<Seq<char>, Seq<char>>>,
    i: int,
    acc: Seq<(Seq<char>, Seq<char>, Seq<char>)>,
) -> (Seq<(Seq<char>, Seq<char>, Seq<char>)>, Option<Seq<char>>)
    decreases ls.len() - i,
{
    if i < 0 || i >= ls.len() {
        (acc, None)
    } else {
        match ls[i] {
            Err(e) => (acc, Some(e)),
            Ok(l) => match log_captures(l) {
                Some(c) => log_entries_from(ls, i + 1, acc.push(c)),
                None => log_entries_from(ls, i + 1, acc),
            },
        }
    }
}

/// How many entries of each level `es` holds, the levels in the order first seen.
pub open spec fn tally(es: Seq<(Seq<char>, Seq<char>, Seq<char>)>) -> Seq<(Seq<char>, int)>
    decreases es.len(),
{
    if es.len() == 0 {
        Seq::empty()
    } else {
        let m = tally(es.drop_last());
        let l = es.last().1;
        match lookup(m, l) {
            Some(c) => obj_insert(m, l, c + 1),
            None => obj_insert(m, l, 1),
        }
    }
}

/// The sum of the counts of `t`.
pub open spec fn total_count(t: Seq<(Seq<char>, int)>) -> int
    decreases t.len(),
{
    if t.len() == 0 {
        0
    } else {
        total_count(t.drop_last()) + t.last().1
    }
}

/// Adding one to the count at `i` adds one to the total.
proof fn lemma_total_update(t: Seq<(Seq<char>, int)>, i: int, k: Seq<char>)
    requires
        0 <= i < t.len(),
    ensures
        total_count(t.update(i, (k, t[i].1 + 1))) == total_count(t) + 1,
    decreases t.len(),
{
    let u = t.update(i, (k, t[i].1 + 1));
    if i < t.len() - 1 {
        assert(u.drop_last() =~= t.drop_last().update(i, (k, t[i].1 + 1)));
        lemma_total_update(t.drop_last(), i, k);
    } else {
        assert(u.drop_last() =~= t.drop_last());
    }
}

/// The counts of the levels add up to the number of entries.
pub proof fn law_counts_add_up(es: Seq<(Seq<char>, Seq<char>, Seq<char>)>)
    ensures
        total_count(tally(es)) == es.len(),
    decreases es.len(),
{
    if es.len() > 0 {
        let m = tally(es.drop_last());
        let l = es.last().1;
        law_counts_add_up(es.drop_last());
        crate::json_value::lemma_key_index_bounds(m, l);
        let i = key_index(m, l);
        if i < m.len() {
            lemma_total_update(m, i, l);
        } else {
            assert(m.push((l, 1)).drop_last() =~= m);
        }
    }
}

/// The views of level counts.
pub open spec fn count_views(v: Seq<(String, usize)>) -> Seq<(Seq<char>, int)> {
    Seq::new(v.len(), |i: int| (v[i].0@, v[i].1 as int))
}

/// The entries of `es` of level `level`, in order.
pub open spec fn of_level(es: Seq<(Seq<char>, Seq<char>, Seq<char>)>, level: Seq<char>) -> Seq<(Seq<char>, Seq<char>, Seq<char>)>
    decreases es.len(),
{
    if es.len() == 0 {
        Seq::empty()
    } else {
        let r = of_level(es.drop_last(), level);
        if es.last().1 == level {
            r.push(es.last())
        } else {
            r
        }
    }
}

/// The views of borrowed entries.
pub open spec fn entry_ref_views(es: Seq<&LogEntry>) -> Seq<(Seq<char>, Seq<char>, Seq<char>)> {
    Seq::new(es.len(), |i: int| entry_view(*es[i]))
}

/// The entries found in a log and the count of each level.
pub struct LogAnalyzer {
    entries: Vec<LogEntry>,
    level_counts: Vec<(String, usize)>,
}

/// The position of the count of `level` in `v`, or its length.
fn find_level(v: &Vec<(String, usize)>, level: &str) -> (i: usize)
    ensures
        i == key_index(count_views(v@), level@),
        i <= v@.len(),
{
    let ghost m = count_views(v@);
    let mut i: usize = 0;
    while i < v.len() && !str_eq(v[i].0.as_str(), level)
        invariant
            i <= v@.len(),
            m == count_views(v@),
            forall|j: int| 0 <= j < i ==> m[j].0 != level@,
        decreases v.len() - i,
    {
        i += 1;
    }
    proof {
        lemma_key_index(m, level@, i as int);
    }
    i
}

impl LogAnalyzer {
    /// The entries found.
    pub closed spec fn entries(&self) -> Seq<(Seq<char>, Seq<char>, Seq<char>)> {
        entry_views(self.entries@)
    }

    /// The count of each level, in the order first seen.
    pub closed spec fn counts(&self) -> Seq<(Seq<char>, int)> {
        count_views(self.level_counts@)
    }

    /// The counts are those of the entries.
    pub closed spec fn wf(&self) -> bool {
        &&& self.counts() == tally(self.entries())
        &&& forall|i: int| 0 <= i < self.level_counts@.len() ==> #[trigger] self.level_counts@[i].1
            <= self.entries@.len()
    }

    /// An analyzer with no entries.
    pub fn new() -> (a: LogAnalyzer)
        ensures
            a.wf(),
            a.entries() == Seq::<(Seq<char>, Seq<char>, Seq<char>)>::empty(),
    {
        let a = LogAnalyzer { entries: Vec::new(), level_counts: Vec::new() };
        assert(a.entries() =~= Seq::<(Seq<char>, Seq<char>, Seq<char>)>::empty());
        assert(a.counts() =~= Seq::<(Seq<char>, int)>::empty());
        a
    }

    /// Adds the entries of the log lines that match the pattern. `lines` holds
    /// the lines as read, or the error met opening the file; entries added before
    /// a read error stay.
    pub fn parse_log_file(&mut self, lines: Result<Vec<Result<String, String>>, String>) -> (r: Result<(), String>)
        requires
            old(self).wf(),
            lines matches Ok(ls) ==> old(self).entries().len() + ls@.len() < usize::MAX,
        ensures
            final(self).wf(),
            lines matches Err(e) ==> (r matches Err(m) && m@ == e@ && final(self).entries() == old(self).entries()),
            lines is Ok ==> (regex_error(log_line_pattern()) matches Some(e) ==> (r matches Err(m) && m@ == e
                && final(self).entries() == old(self).entries())),
            regex_error(log_line_pattern()) is None ==> (lines matches Ok(ls) ==> ({
                let (es, err) = log_entries_from(line_views(ls@), 0, old(self).entries());
                &&& final(self).entries() == es
                &&& match err {
                    None => r is Ok,
                    Some(e) => r matches Err(m) && m@ == e,
                }
            })),
    {
        let ls = match lines {
            Err(e) => return Err(e),
            Ok(ls) => ls,
        };
        let pattern = "(\\d{4}-\\d{2}-\\d{2} \\d{2}:\\d{2}:\\d{2}) \\[(\\w+)\\] (.+)";
        if let Err(e) = capture_log_line(pattern, "") {
            return Err(e);
        }
        let ghost lv = line_views(ls@);
        let ghost start = self.entries();
        let mut i: usize = 0;
        while i < ls.len()
            invariant
                i <= ls@.len(),
                lines matches Ok(x) && x@ == ls@,
                lv == line_views(ls@),
                self.wf(),
                start == old(self).entries(),
                start.len() + ls@.len() < usize::MAX,
                pattern@ == log_line_pattern(),
                regex_error(log_line_pattern()) is None,
                self.entries().len() <= start.len() + i,
                log_entries_from(lv, 0, start) == log_entries_from(lv, i as int, self.entries()),
            decreases ls.len() - i,
        {
            match &ls[i] {
                Err(e) => {
                    return Err(e.clone());
                },
                Ok(line) => {
                    match capture_log_line(pattern, line.as_str()) {
                        Ok(Some((timestamp, level, message))) => {
                            self.add_entry(LogEntry { timestamp, level, message });
                        },
                        Ok(None) => {},
                        Err(e) => {
                            return Err(e);
                        },
                    }
                },
            }
            i += 1;
        }
        Ok(())
    }

    /// Adds one entry and counts its level.
    fn add_entry(&mut self, entry: LogEntry)
        requires
            old(self).wf(),
            old(self).entries().len() < usize::MAX,
        ensures
            final(self).wf(),
            final(self).entries() == old(self).entries().push(entry_view(entry)),
    {
        let ghost es = self.entries();
        let ghost ev = entry_view(entry);
        let ghost m = self.counts();
        let k = find_level(&self.level_counts, entry.level.as_str());
        let ghost lv = entry.level@;
        let n = self.entries.len();
        proof {
            crate::json_value::lemma_key_index_bounds(m, lv);
        }
        if k < self.level_counts.len() {
            let c = self.level_counts[k].1;
            assert(c <= n);
            let name = self.level_counts[k].0.clone();
            self.level_counts.set(k, (name, c + 1));
            assert(self.counts() =~= m.update(k as int, (lv, c + 1)));
        } else {
            let level = entry.level.clone();
            self.level_counts.push((level, 1));
            assert(self.counts() =~= m.push((lv, 1)));
        }
        self.entries.push(entry);
        assert(self.entries() =~= es.push(ev));
        assert(self.entries().drop_last() =~= es);
        assert forall|i: int| 0 <= i < self.level_counts@.len() implies #[trigger] self.level_counts@[i].1
            <= self.entries@.len() by {
            if i != k as int {
                assert(self.level_counts@[i].1 == count_views(self.level_counts@)[i].1);
            }
        }
    }

    /// The count of each level, the largest counts first; levels with equal
    /// counts keep the order in which they were first seen.
    pub fn get_level_summary(&self) -> (r: Vec<(String, usize)>)
        ensures
            count_views(r@).len() == self.counts().len(),
            forall|i: int, j: int| 0 <= i < j < r@.len() ==> r@[i].1 >= r@[j].1,
            forall|p: (Seq<char>, int)| #[trigger] count_views(r@).contains(p) <==> self.counts().contains(p),
    {
        let ghost src = self.counts();
        let mut out: Vec<(String, usize)> = Vec::new();
        let mut i: usize = 0;
        while i < self.level_counts.len()
            invariant
                i <= self.level_counts@.len(),
                src == count_views(self.level_counts@),
                out@.len() == i,
                forall|a: int, b: int| 0 <= a < b < out@.len() ==> out@[a].1 >= out@[b].1,
                forall|p: (Seq<char>, int)| #[trigger] count_views(out@).contains(p) <==> src.take(i as int).contains(p),
            decreases self.level_counts.len() - i,
        {
            let c = self.level_counts[i].1;
            let ghost o = out@;
            let ghost ov = count_views(out@);
            let ghost pv = (self.level_counts@[i as int].0@, c as int);
            let mut p: usize = 0;
            while p < out.len() && out[p].1 >= c
                invariant
                    p <= out@.len(),
                    o == out@,
                    forall|k: int| 0 <= k < p ==> #[trigger] o[k].1 >= c,
                decreases out.len() - p,
            {
                p += 1;
            }
            let name = self.level_counts[i].0.clone();
            out.insert(p, (name, c));
            proof {
                let s1 = src.take(i + 1);
                let s0 = src.take(i as int);
                assert(s1 =~= s0.push(pv));
                assert forall|t: (Seq<char>, int)| s1.contains(t) <==> (s0.contains(t) || t == pv) by {
                    if s1.contains(t) {
                        let k = choose|k: int| 0 <= k < s1.len() && s1[k] == t;
                        if k < i {
                            assert(s0[k] == t);
                        }
                    }
                    if s0.contains(t) {
                        let k = choose|k: int| 0 <= k < s0.len() && s0[k] == t;
                        assert(s1[k] == t);
                    }
                    if t == pv {
                        assert(s1[i as int] == t);
                    }
                }
                let n = count_views(out@);
                assert(out@ =~= o.take(p as int).push(out@[p as int]) + o.skip(p as int));
                assert forall|a: int, b: int| 0 <= a < b < out@.len() implies out@[a].1 >= out@[b].1 by {
                    if b < p {
                        assert(out@[a] == o[a] && out@[b] == o[b]);
                    } else if b == p {
                        assert(out@[a] == o[a]);
                    } else if a < p {
                        assert(out@[a] == o[a] && out@[b] == o[b - 1]);
                    } else if a == p {
                        assert(out@[b] == o[b - 1]);
                        assert(!(o[p as int].1 >= c));
                    } else {
                        assert(out@[a] == o[a - 1] && out@[b] == o[b - 1]);
                    }
                }
                assert forall|t: (Seq<char>, int)| #[trigger] n.contains(t) <==> (ov.contains(t) || t == pv) by {
                    if n.contains(t) {
                        let k = choose|k: int| 0 <= k < n.len() && n[k] == t;
                        if k < p {
                            assert(out@[k] == o[k]);
                            assert(ov[k] == t);
                        } else if k > p {
                            assert(out@[k] == o[k - 1]);
                            assert(ov[k - 1] == t);
                        }
                    }
                    if ov.contains(t) {
                        let k = choose|k: int| 0 <= k < ov.len() && ov[k] == t;
                        if k < p {
                            assert(out@[k] == o[k]);
                            assert(n[k] == t);
                        } else {
                            assert(out@[k + 1] == o[k]);
                            assert(n[k + 1] == t);
                        }
                    }
                    if t == pv {
                        assert(n[p as int] == t);
                    }
                }
            }
            i += 1;
        }
        assert(src.take(self.level_counts@.len() as int) =~= src);
        out
    }

    /// The entries of level `level`, in order.
    pub fn filter_by_level(&self, level: &str) -> (r: Vec<&LogEntry>)
        ensures
            entry_ref_views(r@) == of_level(self.entries(), level@),
    {
        let ghost s = self.entries();
        let mut out: Vec<&LogEntry> = Vec::new();
        let mut i: usize = 0;
        while i < self.entries.len()
            invariant
                i <= self.entries@.len(),
                s == entry_views(self.entries@),
                entry_ref_views(out@) == of_level(s.take(i as int), level@),
            decreases self.entries.len() - i,
        {
            assert(s.take(i + 1).drop_last() =~= s.take(i as int));
            let ghost before = entry_ref_views(out@);
            if str_eq(self.entries[i].level.as_str(), level) {
                out.push(&self.entries[i]);
                assert(entry_ref_views(out@) =~= before.push(s[i as int]));
            }
            i += 1;
        }
        assert(s.take(self.entries@.len() as int) =~= s);
        out
    }

    /// How many entries were found.
    pub fn get_total_entries(&self) -> (n: usize)
        ensures
            n == self.entries().len(),
    {
        self.entries.len()
    }
}

} // verus!
