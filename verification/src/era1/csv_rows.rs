//! Rows of trimmed fields split at a delimiter, with an optional header line;
//! checks on a row's fields and the extraction of one column.
//!
//! The file is read outside; its lines (or the error met reading one) are handed
//! in here.
use vstd::prelude::*;
use crate::text::{string_views, trimmed_pieces, split_trimmed};
use crate::beacon::deneb::signed_beacon_block::csv_processor::{line_views, record_views};

verus! {

/// The rows of the lines `ls` from position `i` on, after `acc`, each line split
/// at `d` with its fields trimmed; a read error stops it.
pub open spec fn rows_from(
    ls: Seq<Result<Seq<char>, Seq<char>>>,
    d: char,
    i: int,
    acc: Seq<Seq<Seq<char>>>,
) -> Result<Seq<Seq<Seq<char>>>, Seq<char>>
    decreases ls.len() - i,
{
    if i < 0 || i >= ls.len() {
        Ok(acc)
    } else {
        match ls[i] {
            Err(e) => Err(e),
            Ok(l) => rows_from(ls, d, i + 1, acc.push(trimmed_pieces(l, d))),
        }
    }
}

/// The fields at `k` of the rows of `rs` that have one, in order.
pub open spec fn column_at(rs: Seq<Seq<Seq<char>>>, k: int) -> Seq<Seq<char>>
    decreases rs.len(),
{
    if rs.len() == 0 {
        Seq::empty()
    } else {
        let r = column_at(rs.drop_last(), k);
        if 0 <= k < rs.last().len() {
            r.push(rs.last()[k])
        } else {
            r
        }
    }
}

/// Splits lines into trimmed fields.
pub struct DataProcessor {
    delimiter: char,
    has_header: bool,
}

impl DataProcessor {
    /// The delimiter.
    pub closed spec fn delimiter(&self) -> char {
        self.delimiter
    }

    /// Whether the first line is a header.
    pub closed spec fn has_header(&self) -> bool {
        self.has_header
    }

    /// A processor splitting at `delimiter`, passing over a header line when
    /// `has_header` is set.
    pub fn new(delimiter: char, has_header: bool) -> (p: DataProcessor)
        ensures
            p.delimiter() == delimiter,
            p.has_header() == has_header,
    {
        DataProcessor { delimiter, has_header }
    }

    /// The rows of a file, each line split at the delimiter and trimmed. `lines`
    /// holds the lines as read, or the error met opening the file.
    pub fn process_csv(&self, lines: Result<Vec<Result<String, String>>, String>) -> (r: Result<Vec<Vec<String>>, String>)
        ensures
            match lines {
                Err(e) => r matches Err(m) && m@ == e@,
                Ok(ls) => match rows_from(
                    line_views(ls@),
                    self.delimiter(),
                    if self.has_header() { 1 } else { 0 },
                    Seq::empty(),
                ) {
                    Ok(rs) => r matches Ok(v) && record_views(v@) == rs,
                    Err(e) => r matches Err(m) && m@ == e,
                },
            },
    {
        let ls = match lines {
            Err(e) => return Err(e),
            Ok(ls) => ls,
        };
        let ghost lv = line_views(ls@);
        let ghost start: int = if self.has_header { 1int } else { 0int };
        let mut records: Vec<Vec<String>> = Vec::new();
        let mut i: usize = if self.has_header { 1 } else { 0 };
        assert(record_views(records@) =~= Seq::<Seq<Seq<char>>>::empty());
        if i > ls.len() {
            return Ok(records);
        }
        while i < ls.len()
            invariant
                i <= ls@.len(),
                lines matches Ok(x) && x@ == ls@,
                lv == line_views(ls@),
                start == (if self.has_header { 1int } else { 0int }),
                rows_from(lv, self.delimiter, start, Seq::empty()) == rows_from(
                    lv,
                    self.delimiter,
                    i as int,
                    record_views(records@),
                ),
            decreases ls.len() - i,
        {
            match &ls[i] {
                Err(e) => {
                    return Err(e.clone());
                },
                Ok(line) => {
                    let fields = split_trimmed(line.as_str(), self.delimiter);
                    let ghost before = record_views(records@);
                    let ghost fv = string_views(fields@);
                    records.push(fields);
                    assert(record_views(records@) =~= before.push(fv));
                },
            }
            i += 1;
        }
        Ok(records)
    }

    /// Whether `record` has `expected_fields` fields, none of them empty.
    pub fn validate_record(&self, record: &[String], expected_fields: usize) -> (b: bool)
        ensures
            b == (record@.len() == expected_fields && forall|k: int|
                0 <= k < record@.len() ==> #[trigger] record@[k]@.len() > 0),
    {
        if record.len() != expected_fields {
            return false;
        }
        let mut i: usize = 0;
        while i < record.len()
            invariant
                i <= record@.len(),
                forall|k: int| 0 <= k < i ==> #[trigger] record@[k]@.len() > 0,
            decreases record.len() - i,
        {
            if record[i].as_str().is_empty() {
                return false;
            }
            i += 1;
        }
        true
    }

    /// The field at `column_index` of each row that has one, in order.
    pub fn extract_column(&self, data: &[Vec<String>], column_index: usize) -> (r: Vec<String>)
        ensures
            string_views(r@) == column_at(record_views(data@), column_index as int),
    {
        let ghost rv = record_views(data@);
        let mut out: Vec<String> = Vec::new();
        let mut i: usize = 0;
        while i < data.len()
            invariant
                i <= data@.len(),
                rv == record_views(data@),
                string_views(out@) == column_at(rv.take(i as int), column_index as int),
            decreases data.len() - i,
        {
            assert(rv.take(i + 1).drop_last() =~= rv.take(i as int));
            assert(rv.take(i + 1).last() == string_views(data@[i as int]@));
            let ghost before = string_views(out@);
            if column_index < data[i].len() {
                out.push(data[i][column_index].clone());
                assert(string_views(out@) =~= before.push(string_views(data@[i as int]@)[column_index as int]));
            }
            i += 1;
        }
        assert(rv.take(data@.len() as int) =~= rv);
        out
    }
}

} // verus!
