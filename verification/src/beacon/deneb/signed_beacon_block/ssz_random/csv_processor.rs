//! Selecting delimited rows by the value of one column, and counting lines.
//!
//! The file is opened and read outside; its lines (or the errors met reading
//! them) are handed in here.
use vstd::prelude::*;
use crate::text::{split_char, string_views, split_strings, str_eq};
use crate::beacon::deneb::signed_beacon_block::csv_processor::line_views;

verus! {

broadcast use vstd::string::group_string_axioms;

/// The rows of the lines `ls` from position `i` on, after `acc`, whose column
/// `col` is `target`: a read error stops it.
pub open spec fn rows_with_value(
    ls: Seq<Result<Seq<char>, Seq<char>>>,
    d: char,
    col: int,
    target: Seq<char>,
    i: int,
    acc: Seq<Seq<Seq<char>>>,
) -> Result<Seq<Seq<Seq<char>>>, Seq<char>>
    decreases ls.len() - i,
{
    if i < 0 || i >= ls.len() {
        Ok(acc)
    } else {
        match ls[i] {
            Err(e) => Err(e),
            Ok(l) => {
                let cols = split_char(l, d);
                if cols.len() > col && cols[col] == target {
                    rows_with_value(ls, d, col, target, i + 1, acc.push(cols))
                } else {
                    rows_with_value(ls, d, col, target, i + 1, acc)
                }
            },
        }
    }
}

/// Rows of a delimited file.
pub struct CsvProcessor {
    file_path: String,
    delimiter: char,
}

impl CsvProcessor {
    /// The path of the file.
    pub closed spec fn path(&self) -> Seq<char> {
        self.file_path@
    }

    /// The delimiter.
    pub closed spec fn delimiter(&self) -> char {
        self.delimiter
    }

    /// A processor for the file at `file_path`, split at `delimiter`.
    pub fn new(file_path: &str, delimiter: char) -> (p: CsvProcessor)
        ensures
            p.path() == file_path@,
            p.delimiter() == delimiter,
    {
        CsvProcessor { file_path: file_path.to_string(), delimiter }
    }

    /// The path of the file, from which the caller reads its lines.
    pub fn file_path(&self) -> (p: &str)
        ensures
            p@ == self.path(),
    {
        self.file_path.as_str()
    }

    /// The rows (all their columns, untrimmed) whose column `column_index` is
    /// `target_value`; `lines` holds the file's lines as read, or the error met
    /// opening it.
    pub fn filter_by_column_value(
        &self,
        lines: Result<Vec<Result<String, String>>, String>,
        column_index: usize,
        target_value: &str,
    ) -> (r: Result<Vec<Vec<String>>, String>)
        ensures
            match lines {
                Err(e) => r matches Err(m) && m@ == e@,
                Ok(ls) => match rows_with_value(line_views(ls@), self.delimiter(), column_index as int, target_value@, 0, Seq::empty()) {
                    Ok(rows) => r matches Ok(v) && crate::beacon::deneb::signed_beacon_block::csv_processor::record_views(v@) == rows,
                    Err(e) => r matches Err(m) && m@ == e,
                },
            },
    {
        let ls = match lines {
            Err(e) => return Err(e),
            Ok(ls) => ls,
        };
        let ghost lv = line_views(ls@);
        let mut rows: Vec<Vec<String>> = Vec::new();
        let mut i: usize = 0;
        assert(crate::beacon::deneb::signed_beacon_block::csv_processor::record_views(rows@) =~= Seq::<Seq<Seq<char>>>::empty());
        while i < ls.len()
            invariant
                i <= ls@.len(),
                lines matches Ok(x) && x@ == ls@,
                lv == line_views(ls@),
                rows_with_value(lv, self.delimiter, column_index as int, target_value@, 0, Seq::empty())
                    == rows_with_value(
                    lv,
                    self.delimiter,
                    column_index as int,
                    target_value@,
                    i as int,
                    crate::beacon::deneb::signed_beacon_block::csv_processor::record_views(rows@),
                ),
            decreases ls.len() - i,
        {
            match &ls[i] {
                Err(e) => {
                    return Err(e.clone());
                },
                Ok(line) => {
                    let cols = split_strings(line.as_str(), self.delimiter);
                    if cols.len() > column_index && str_eq(cols[column_index].as_str(), target_value) {
                        assert(string_views(cols@)[column_index as int] == cols@[column_index as int]@);
                        let ghost before = crate::beacon::deneb::signed_beacon_block::csv_processor::record_views(rows@);
                        let ghost cv = string_views(cols@);
                        rows.push(cols);
                        assert(crate::beacon::deneb::signed_beacon_block::csv_processor::record_views(rows@) =~= before.push(cv));
                    } else {
                        proof {
                            if cols@.len() > column_index {
                                assert(string_views(cols@)[column_index as int] == cols@[column_index as int]@);
                            }
                        }
                    }
                },
            }
            i += 1;
        }
        Ok(rows)
    }

    /// The number of lines of the file (lines that could not be read included);
    /// `lines` holds its lines as read, or the error met opening it.
    pub fn count_rows(&self, lines: Result<Vec<Result<String, String>>, String>) -> (r: Result<usize, String>)
        ensures
            match lines {
                Err(e) => r matches Err(m) && m@ == e@,
                Ok(ls) => r == Ok::<usize, String>(ls@.len() as usize),
            },
    {
        match lines {
            Err(e) => Err(e),
            Ok(ls) => Ok(ls.len()),
        }
    }
}

} // verus!
