//! Rows of a CSV file with every field trimmed and rows with no content dropped;
//! rows selected by the text of one column; and the numerals of one column.
//!
//! The file's bytes are read outside and handed in here, where the `csv` crate
//! splits them into records. The mean and deviation of a column are computed by
//! the caller from the numerals picked here.
use vstd::prelude::*;
use crate::text::{string_views, trim, trim_str, contains_str, contains_seq, chars_of};
use crate::float_syntax::{float_syntax, float_syntax_ok};
use crate::beacon::deneb::signed_beacon_block::csv_processor::record_views;

verus! {

/// The views of rows as read, or of the errors met reading them.
pub open spec fn row_result_views(rs: Seq<Result<Vec<String>, String>>) -> Seq<Result<Seq<Seq<char>>, Seq<char>>> {
    Seq::new(
        rs.len(),
        |i: int|
            match rs[i] {
                Ok(r) => Ok(string_views(r@)),
                Err(e) => Err(e@),
            },
    )
}

/// What `csv::Reader::from_reader(bytes).records()` yields for `bytes`: the
/// fields of each record after the header line, or the `Display` text of the
/// error met reading it.
pub uninterp spec fn csv_records(bytes: Seq<u8>) -> Seq<Result<Seq<Seq<char>>, Seq<char>>>;

/// `csv::Reader::from_reader(bytes).records()`, with the default settings (a
/// header line, commas): each record's fields, or the error's text.
#[verifier::external_body]
pub(crate) fn read_csv_records(bytes: &[u8]) -> (r: Vec<Result<Vec<String>, String>>)
    ensures
        row_result_views(r@) == csv_records(bytes@),
{
    csv::Reader::from_reader(bytes)
        .records()
        .map(|r| r.map(|rec| rec.iter().map(|f| f.to_string()).collect()).map_err(|e| e.to_string()))
        .collect()
}

/// The rows of `rs` from `i` on, after `acc`, each field trimmed, rows with no
/// field that is not empty dropped; a read error stops it.
pub open spec fn trimmed_rows(rs: Seq<Result<Seq<Seq<char>>, Seq<char>>>, i: int, acc: Seq<Seq<Seq<char>>>) -> Result<
    Seq<Seq<Seq<char>>>,
    Seq<char>,
>
    decreases rs.len() - i,
{
    if i < 0 || i >= rs.len() {
        Ok(acc)
    } else {
        match rs[i] {
            Err(e) => Err(e),
            Ok(r) => {
                let t = Seq::new(r.len(), |k: int| trim(r[k]));
                if exists|k: int| 0 <= k < t.len() && t[k].len() > 0 {
                    trimmed_rows(rs, i + 1, acc.push(t))
                } else {
                    trimmed_rows(rs, i + 1, acc)
                }
            },
        }
    }
}

/// The rows of `rs` whose field at `k` contains `w`, in order.
pub open spec fn rows_containing(rs: Seq<Seq<Seq<char>>>, k: int, w: Seq<char>) -> Seq<Seq<Seq<char>>>
    decreases rs.len(),
{
    if rs.len() == 0 {
        Seq::empty()
    } else {
        let r = rows_containing(rs.drop_last(), k, w);
        if 0 <= k < rs.last().len() && contains_seq(rs.last()[k], w) {
            r.push(rs.last())
        } else {
            r
        }
    }
}

/// `w` occurs somewhere in `f`: some stretch of `f` is `w`.
pub open spec fn has_stretch(f: Seq<char>, w: Seq<char>) -> bool {
    exists|i: int| 0 <= i && i + w.len() <= f.len() && #[trigger] f.subrange(i, i + w.len()) == w
}

/// Filtering by a column keeps exactly the rows whose field in that column holds
/// the filter text anywhere in it, in their order: every kept row is a row of
/// `rs` with such a field, and every row of `rs` with such a field is kept.
pub proof fn law_filter_keeps_rows_holding_text(rs: Seq<Seq<Seq<char>>>, k: int, w: Seq<char>)
    ensures
        forall|j: int|
            0 <= j < rows_containing(rs, k, w).len() ==> rs.contains(#[trigger] rows_containing(rs, k, w)[j])
                && 0 <= k < rows_containing(rs, k, w)[j].len() && has_stretch(rows_containing(rs, k, w)[j][k], w),
        forall|j: int|
            0 <= j < rs.len() && 0 <= k < rs[j].len() && has_stretch(#[trigger] rs[j][k], w) ==> rows_containing(
                rs,
                k,
                w,
            ).contains(rs[j]),
        rows_containing(rs, k, w).len() <= rs.len(),
    decreases rs.len(),
{
    if rs.len() > 0 {
        let init = rs.drop_last();
        law_filter_keeps_rows_holding_text(init, k, w);
        let r = rows_containing(init, k, w);
        let out = rows_containing(rs, k, w);
        let last = rs.last();
        let keep = 0 <= k < last.len() && contains_seq(last[k], w);
        assert(keep <==> (0 <= k < last.len() && has_stretch(last[k], w))) by {
            if 0 <= k < last.len() {
                if contains_seq(last[k], w) {
                    let i = choose|i: int| crate::text::occurs_at(last[k], w, i);
                    assert(last[k].subrange(i, i + w.len()) == w);
                }
                if has_stretch(last[k], w) {
                    let i = choose|i: int| 0 <= i && i + w.len() <= last[k].len() && #[trigger] last[k].subrange(i, i + w.len()) == w;
                    assert(crate::text::occurs_at(last[k], w, i));
                }
            }
        }
        assert forall|j: int| 0 <= j < out.len() implies rs.contains(#[trigger] out[j]) && 0 <= k < out[j].len()
            && has_stretch(out[j][k], w) by {
            if j < r.len() {
                assert(out[j] == r[j]);
                assert(r[j] == r[j]);
                let q = choose|q: int| 0 <= q < init.len() && init[q] == r[j];
                assert(rs[q] == init[q]);
            } else {
                assert(out[j] == last);
                assert(rs[rs.len() - 1] == last);
            }
        }
        assert forall|j: int| 0 <= j < rs.len() && 0 <= k < rs[j].len() && has_stretch(#[trigger] rs[j][k], w) implies out.contains(rs[j]) by {
            if j < rs.len() - 1 {
                assert(init[j] == rs[j]);
                assert(r.contains(rs[j]));
                let q = choose|q: int| 0 <= q < r.len() && r[q] == rs[j];
                assert(out[q] == r[q]);
            } else {
                assert(out[out.len() - 1] == last);
            }
        }
    }
}

/// In particular, a row whose field ends with the filter text after other text
/// is kept.
pub proof fn law_filter_keeps_field_ending_in_text(rs: Seq<Seq<Seq<char>>>, k: int, w: Seq<char>, j: int, x: Seq<char>)
    requires
        0 <= j < rs.len(),
        0 <= k < rs[j].len(),
        rs[j][k] == x + w,
    ensures
        rows_containing(rs, k, w).contains(rs[j]),
{
    law_filter_keeps_rows_holding_text(rs, k, w);
    assert((x + w).subrange(x.len() as int, (x.len() + w.len()) as int) =~= w);
    assert(has_stretch(rs[j][k], w));
}

/// The fields at `k` of the rows of `rs` that read as numbers, in order.
pub open spec fn numerals_at(rs: Seq<Seq<Seq<char>>>, k: int) -> Seq<Seq<char>>
    decreases rs.len(),
{
    if rs.len() == 0 {
        Seq::empty()
    } else {
        let r = numerals_at(rs.drop_last(), k);
        if 0 <= k < rs.last().len() && float_syntax(rs.last()[k]) {
            r.push(rs.last()[k])
        } else {
            r
        }
    }
}

/// Processes the rows of one CSV file.
pub struct DataProcessor {
    file_path: String,
}

impl DataProcessor {
    /// The path of the file.
    pub closed spec fn path(&self) -> Seq<char> {
        self.file_path@
    }

    /// A processor for the file at `file_path`.
    pub fn new(file_path: &str) -> (p: DataProcessor)
        ensures
            p.path() == file_path@,
    {
        DataProcessor { file_path: file_path.to_string() }
    }

    /// The path of the file.
    pub fn file_path(&self) -> (p: &str)
        ensures
            p@ == self.path(),
    {
        self.file_path.as_str()
    }

    /// The rows of the file, each field trimmed, rows with no content dropped.
    /// `contents` holds the file's bytes, or the error met opening it; the bytes
    /// are read as CSV records after a header line.
    pub fn process(&self, contents: &Result<Vec<u8>, String>) -> (r: Result<Vec<Vec<String>>, String>)
        ensures
            match contents {
                Err(e) => r matches Err(m) && m@ == e@,
                Ok(b) => match trimmed_rows(csv_records(b@), 0, Seq::empty()) {
                    Ok(out) => r matches Ok(v) && record_views(v@) == out,
                    Err(e) => r matches Err(m) && m@ == e,
                },
            },
    {
        match contents {
            Err(e) => Err(e.clone()),
            Ok(b) => self.process_rows(Ok(read_csv_records(b.as_slice()))),
        }
    }

    /// The rows of a file, each field trimmed, rows with no content dropped.
    /// `rows` holds the file's records as read, or the error met opening it.
    pub fn process_rows(&self, rows: Result<Vec<Result<Vec<String>, String>>, String>) -> (r: Result<Vec<Vec<String>>, String>)
        ensures
            match rows {
                Err(e) => r matches Err(m) && m@ == e@,
                Ok(rs) => match trimmed_rows(row_result_views(rs@), 0, Seq::empty()) {
                    Ok(out) => r matches Ok(v) && record_views(v@) == out,
                    Err(e) => r matches Err(m) && m@ == e,
                },
            },
    {
        let rs = match rows {
            Err(e) => return Err(e),
            Ok(rs) => rs,
        };
        let ghost rv = row_result_views(rs@);
        let mut out: Vec<Vec<String>> = Vec::new();
        let mut i: usize = 0;
        assert(record_views(out@) =~= Seq::<Seq<Seq<char>>>::empty());
        while i < rs.len()
            invariant
                i <= rs@.len(),
                rows matches Ok(x) && x@ == rs@,
                rv == row_result_views(rs@),
                trimmed_rows(rv, 0, Seq::empty()) == trimmed_rows(rv, i as int, record_views(out@)),
            decreases rs.len() - i,
        {
            match &rs[i] {
                Err(e) => {
                    return Err(e.clone());
                },
                Ok(row) => {
                    let ghost src = string_views(row@);
                    let mut t: Vec<String> = Vec::new();
                    let mut any = false;
                    let mut k: usize = 0;
                    while k < row.len()
                        invariant
                            k <= row@.len(),
                            src == string_views(row@),
                            t@.len() == k,
                            forall|j: int| 0 <= j < k ==> t@[j]@ == trim(src[j]),
                            any == exists|j: int| 0 <= j < k && trim(src[j]).len() > 0,
                        decreases row.len() - k,
                    {
                        let f = trim_str(row[k].as_str());
                        assert(f@ == trim(src[k as int]));
                        if !f.as_str().is_empty() {
                            any = true;
                        }
                        t.push(f);
                        k += 1;
                    }
                    let ghost tv = Seq::new(src.len(), |j: int| trim(src[j]));
                    assert(string_views(t@) =~= tv);
                    proof {
                        if any {
                            let j = choose|j: int| 0 <= j < src.len() && trim(src[j]).len() > 0;
                            assert(tv[j].len() > 0);
                        } else {
                            assert forall|j: int| 0 <= j < tv.len() implies tv[j].len() == 0 by {
                                assert(tv[j] == trim(src[j]));
                            }
                        }
                    }
                    if any {
                        let ghost before = record_views(out@);
                        out.push(t);
                        assert(record_views(out@) =~= before.push(tv));
                    }
                },
            }
            i += 1;
        }
        Ok(out)
    }

    /// The rows whose field at `column_index` contains `filter_value`, in order.
    pub fn filter_records(&self, records: Vec<Vec<String>>, column_index: usize, filter_value: &str) -> (r: Vec<
        Vec<String>,
    >)
        ensures
            record_views(r@) == rows_containing(record_views(records@), column_index as int, filter_value@),
    {
        let ghost s = record_views(records@);
        let mut rest = crate::vec_util::reversed(records);
        let mut out: Vec<Vec<String>> = Vec::new();
        while rest.len() > 0
            invariant
                rest@.len() <= s.len(),
                forall|j: int| 0 <= j < rest@.len() ==> string_views(rest@[j]@) == s[s.len() - 1 - j],
                record_views(out@) == rows_containing(s.take(s.len() - rest@.len()), column_index as int, filter_value@),
            decreases rest.len(),
        {
            let ghost k = s.len() - rest@.len();
            let ghost whole = rest@;
            let row = rest.pop().unwrap();
            assert(whole[whole.len() - 1] == row);
            assert(string_views(row@) == s[k]);
            assert forall|j: int| 0 <= j < rest@.len() implies string_views(rest@[j]@) == s[s.len() - 1 - j] by {
                assert(rest@[j] == whole[j]);
            }
            assert(s.take(k + 1).drop_last() =~= s.take(k));
            assert(s.take(k + 1).last() == s[k]);
            let keep = if column_index < row.len() {
                assert(s[k][column_index as int] == row@[column_index as int]@);
                contains_str(row[column_index].as_str(), filter_value)
            } else {
                false
            };
            if keep {
                let ghost before = record_views(out@);
                out.push(row);
                assert(record_views(out@) =~= before.push(s[k]));
            }
        }
        assert(s.take(s.len() as int) =~= s);
        out
    }

    /// The fields at `column_index` that read as numbers, in order.
    pub fn numeric_values(&self, records: &Vec<Vec<String>>, column_index: usize) -> (r: Vec<String>)
        ensures
            string_views(r@) == numerals_at(record_views(records@), column_index as int),
    {
        let ghost s = record_views(records@);
        let mut out: Vec<String> = Vec::new();
        let mut i: usize = 0;
        while i < records.len()
            invariant
                i <= records@.len(),
                s == record_views(records@),
                string_views(out@) == numerals_at(s.take(i as int), column_index as int),
            decreases records.len() - i,
        {
            assert(s.take(i + 1).drop_last() =~= s.take(i as int));
            assert(s.take(i + 1).last() == s[i as int]);
            assert(s[i as int] == string_views(records@[i as int]@));
            if column_index < records[i].len() {
                let field = &records[i][column_index];
                assert(s[i as int][column_index as int] == field@);
                let cs = chars_of(field.as_str());
                if float_syntax_ok(cs.as_slice()) {
                    let ghost before = string_views(out@);
                    out.push(field.clone());
                    assert(string_views(out@) =~= before.push(field@));
                }
            }
            i += 1;
        }
        assert(s.take(records@.len() as int) =~= s);
        out
    }
}

} // verus!
