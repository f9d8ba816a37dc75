//! Picks the error lines out of a log.
//!
//! The log file is read outside; its text is handed in here.
use vstd::prelude::*;
use crate::text::{lines, contains_seq, lines_of, contains_chars, views, string_views, string_from_chars};

verus! {

broadcast use vstd::string::group_string_axioms;

/// A line is an error line when it contains `ERROR` or `error`.
pub open spec fn is_error_line(line: Seq<char>) -> bool {
    contains_seq(line, "ERROR"@) || contains_seq(line, "error"@)
}

/// The error lines among `ls`, in order.
pub open spec fn error_lines(ls: Seq<Seq<char>>) -> Seq<Seq<char>>
    decreases ls.len(),
{
    if ls.len() == 0 {
        Seq::empty()
    } else {
        let r = error_lines(ls.drop_last());
        if is_error_line(ls.last()) {
            r.push(ls.last())
        } else {
            r
        }
    }
}

/// `w` occurs somewhere in `l`: some stretch of `l` is `w`.
pub open spec fn has_stretch(l: Seq<char>, w: Seq<char>) -> bool {
    exists|i: int| 0 <= i && i + w.len() <= l.len() && #[trigger] l.subrange(i, i + w.len()) == w
}

/// Whether `l` mentions an error, spelled `ERROR` or `error`.
pub open spec fn mentions_error(l: Seq<char>) -> bool {
    has_stretch(l, seq!['E', 'R', 'R', 'O', 'R']) || has_stretch(l, seq!['e', 'r', 'r', 'o', 'r'])
}

/// The error lines of a log are exactly its lines that hold `ERROR` or `error`,
/// in their order: every line picked is a line of the log holding one of them,
/// and every line of the log holding one of them is picked. A line holding
/// neither (a warning, say) is never picked.
pub proof fn law_error_lines_mention_errors(ls: Seq<Seq<char>>)
    ensures
        forall|j: int|
            0 <= j < error_lines(ls).len() ==> ls.contains(#[trigger] error_lines(ls)[j]) && mentions_error(
                error_lines(ls)[j],
            ),
        forall|j: int| 0 <= j < ls.len() && mentions_error(#[trigger] ls[j]) ==> error_lines(ls).contains(ls[j]),
        forall|l: Seq<char>| !mentions_error(l) ==> !error_lines(ls).contains(l),
        error_lines(ls).len() <= ls.len(),
    decreases ls.len(),
{
    reveal_strlit("ERROR");
    reveal_strlit("error");
    assert("ERROR"@ =~= seq!['E', 'R', 'R', 'O', 'R']);
    assert("error"@ =~= seq!['e', 'r', 'r', 'o', 'r']);
    if ls.len() > 0 {
        let init = ls.drop_last();
        law_error_lines_mention_errors(init);
        let r = error_lines(init);
        let out = error_lines(ls);
        let last = ls.last();
        assert(is_error_line(last) <==> mentions_error(last)) by {
            let u = seq!['E', 'R', 'R', 'O', 'R'];
            let d = seq!['e', 'r', 'r', 'o', 'r'];
            if contains_seq(last, u) {
                let i = choose|i: int| crate::text::occurs_at(last, u, i);
                assert(last.subrange(i, i + u.len()) == u);
            }
            if contains_seq(last, d) {
                let i = choose|i: int| crate::text::occurs_at(last, d, i);
                assert(last.subrange(i, i + d.len()) == d);
            }
            if has_stretch(last, u) {
                let i = choose|i: int| 0 <= i && i + u.len() <= last.len() && #[trigger] last.subrange(i, i + u.len()) == u;
                assert(crate::text::occurs_at(last, u, i));
            }
            if has_stretch(last, d) {
                let i = choose|i: int| 0 <= i && i + d.len() <= last.len() && #[trigger] last.subrange(i, i + d.len()) == d;
                assert(crate::text::occurs_at(last, d, i));
            }
        }
        assert forall|j: int| 0 <= j < out.len() implies ls.contains(#[trigger] out[j]) && mentions_error(out[j]) by {
            if j < r.len() {
                assert(out[j] == r[j]);
                let q = choose|q: int| 0 <= q < init.len() && init[q] == r[j];
                assert(ls[q] == init[q]);
            } else {
                assert(out[j] == last);
                assert(ls[ls.len() - 1] == last);
            }
        }
        assert forall|j: int| 0 <= j < ls.len() && mentions_error(#[trigger] ls[j]) implies out.contains(ls[j]) by {
            if j < ls.len() - 1 {
                assert(init[j] == ls[j]);
                assert(r.contains(ls[j]));
                let q = choose|q: int| 0 <= q < r.len() && r[q] == ls[j];
                assert(out[q] == r[q]);
            } else {
                assert(out[out.len() - 1] == last);
            }
        }
        assert forall|l: Seq<char>| !mentions_error(l) implies !out.contains(l) by {
            if out.contains(l) {
                let q = choose|q: int| 0 <= q < out.len() && out[q] == l;
                assert(mentions_error(out[q]));
            }
        }
    }
}

/// Reads the error lines of a log file.
pub struct LogProcessor {
    log_path: String,
}

impl LogProcessor {
    /// A processor for the log at `log_path`.
    pub fn new(log_path: &str) -> (p: LogProcessor)
        ensures
            p.path() == log_path@,
    {
        LogProcessor { log_path: log_path.to_string() }
    }

    /// The path of the log.
    pub closed spec fn path(&self) -> Seq<char> {
        self.log_path@
    }

    /// The path of the log, from which the caller reads its text.
    pub fn log_path(&self) -> (p: &str)
        ensures
            p@ == self.path(),
    {
        self.log_path.as_str()
    }

    /// The error lines of the log whose text is `content`.
    pub fn extract_errors(&self, content: &str) -> (r: Vec<String>)
        ensures
            string_views(r@) == error_lines(lines(content@)),
    {
        let ls = lines_of(content);
        let error_upper: Vec<char> = vec!['E', 'R', 'R', 'O', 'R'];
        let error_lower: Vec<char> = vec!['e', 'r', 'r', 'o', 'r'];
        proof {
            reveal_strlit("ERROR");
            reveal_strlit("error");
            assert(error_upper@ =~= "ERROR"@);
            assert(error_lower@ =~= "error"@);
        }
        let mut out: Vec<String> = Vec::new();
        let mut i: usize = 0;
        while i < ls.len()
            invariant
                i <= ls@.len(),
                views(ls@) == lines(content@),
                error_upper@ == "ERROR"@,
                error_lower@ == "error"@,
                string_views(out@) == error_lines(views(ls@).take(i as int)),
            decreases ls.len() - i,
        {
            let line = &ls[i];
            assert(views(ls@).take(i + 1).drop_last() =~= views(ls@).take(i as int));
            assert(views(ls@).take(i + 1).last() == line@);
            if contains_chars(line.as_slice(), error_upper.as_slice()) || contains_chars(
                line.as_slice(),
                error_lower.as_slice(),
            ) {
                let ghost before = string_views(out@);
                out.push(string_from_chars(line.as_slice()));
                assert(string_views(out@) =~= before.push(line@));
            }
            i += 1;
        }
        assert(views(ls@).take(ls@.len() as int) =~= views(ls@));
        out
    }

    /// How many error lines the log whose text is `content` has.
    pub fn count_errors(&self, content: &str) -> (n: usize)
        ensures
            n == error_lines(lines(content@)).len(),
    {
        let errors = self.extract_errors(content);
        errors.len()
    }
}

/// The error lines of the log whose text is `content`.
pub fn process_log_file(content: &str) -> (r: Vec<String>)
    ensures
        string_views(r@) == error_lines(lines(content@)),
{
    let processor = LogProcessor::new("");
    processor.extract_errors(content)
}

} // verus!
