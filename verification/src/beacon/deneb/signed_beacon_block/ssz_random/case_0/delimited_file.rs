//! Rows of trimmed fields split at a delimiter, blank lines and an optional header
//! passed over, every field required; and the numeric column of such rows that
//! statistics are taken over.
//!
//! The file is read outside; its lines (or the error met reading one) are handed
//! in here. The mean and deviation of a column are computed by the caller from
//! the numerals checked here.
use vstd::prelude::*;
use crate::text::{string_views, trim, trimmed_pieces, split_trimmed, is_blank, concat_str, chars_of};
use crate::numbers::decimal_text;
use crate::packets::decimal;
use crate::float_syntax::{float_syntax, float_syntax_ok};
use crate::beacon::deneb::signed_beacon_block::csv_processor::{line_views, record_views, any_empty};

verus! {

/// The rows of the lines `ls` from `i` on, after `acc`: blank lines and, with a
/// header, line 0 are passed over; a read error stops it, and so does a row with
/// an empty field, reported by its line number.
pub open spec fn delimited_rows(
    ls: Seq<Result<Seq<char>, Seq<char>>>,
    d: char,
    has_header: bool,
    i: int,
    acc: Seq<Seq<Seq<char>>>,
) -> Result<Seq<Seq<Seq<char>>>, Seq<char>>
    decreases ls.len() - i,
{
    if i < 0 || i >= ls.len() {
        Ok(acc)
    } else {
        match ls[i] {
            Err(e) => Err(e),
            Ok(l) => if trim(l).len() == 0 || (has_header && i == 0) {
                delimited_rows(ls, d, has_header, i + 1, acc)
            } else {
                let fields = trimmed_pieces(l, d);
                if exists|k: int| 0 <= k < fields.len() && fields[k].len() == 0 {
                    Err("Invalid record at line "@ + decimal_text((i + 1) as nat))
                } else {
                    delimited_rows(ls, d, has_header, i + 1, acc.push(fields))
                }
            },
        }
    }
}

/// The numerals of column `k` of the rows `rs` from `i` on, after `acc`, or the
/// first problem.
pub open spec fn numeric_column_from(rs: Seq<Seq<Seq<char>>>, k: int, i: int, acc: Seq<Seq<char>>) -> Result<
    Seq<Seq<char>>,
    Seq<char>,
>
    decreases rs.len() - i,
{
    if i < 0 || i >= rs.len() {
        Ok(acc)
    } else if k >= rs[i].len() {
        Err("Column index "@ + decimal_text(k as nat) + " out of bounds"@)
    } else if !float_syntax(rs[i][k]) {
        Err("Invalid numeric value at column "@ + decimal_text(k as nat))
    } else {
        numeric_column_from(rs, k, i + 1, acc.push(rs[i][k]))
    }
}

/// Splits lines into trimmed fields.
pub struct DataProcessor {
    delimiter: char,
    has_header: bool,
}

impl DataProcessor {
    /// The delimiter.
    pub closed spec fn delimiter(&self) -> char {
        self.delimiter
    }

    /// Whether the first line is a header.
    pub closed spec fn has_header(&self) -> bool {
        self.has_header
    }

    /// A processor splitting at `delimiter`, passing over a header line when
    /// `has_header` is set.
    pub fn new(delimiter: char, has_header: bool) -> (p: DataProcessor)
        ensures
            p.delimiter() == delimiter,
            p.has_header() == has_header,
    {
        DataProcessor { delimiter, has_header }
    }

    /// The rows of a file. `lines` holds the lines as read, or the error met
    /// opening the file.
    pub fn process_file(&self, lines: Result<Vec<Result<String, String>>, String>) -> (r: Result<Vec<Vec<String>>, String>)
        ensures
            match lines {
                Err(e) => r matches Err(m) && m@ == e@,
                Ok(ls) => match delimited_rows(line_views(ls@), self.delimiter(), self.has_header(), 0, Seq::empty()) {
                    Ok(rs) => r matches Ok(v) && record_views(v@) == rs,
                    Err(e) => r matches Err(m) && m@ == e,
                },
            },
    {
        let ls = match lines {
            Err(e) => return Err(e),
            Ok(ls) => ls,
        };
        let ghost lv = line_views(ls@);
        let mut records: Vec<Vec<String>> = Vec::new();
        let mut i: usize = 0;
        assert(record_views(records@) =~= Seq::<Seq<Seq<char>>>::empty());
        while i < ls.len()
            invariant
                i <= ls@.len(),
                lines matches Ok(x) && x@ == ls@,
                lv == line_views(ls@),
                delimited_rows(lv, self.delimiter, self.has_header, 0, Seq::empty()) == delimited_rows(
                    lv,
                    self.delimiter,
                    self.has_header,
                    i as int,
                    record_views(records@),
                ),
            decreases ls.len() - i,
        {
            match &ls[i] {
                Err(e) => {
                    return Err(e.clone());
                },
                Ok(line) => {
                    if !is_blank(line.as_str()) && !(self.has_header && i == 0) {
                        let fields = split_trimmed(line.as_str(), self.delimiter);
                        if any_empty(&fields) {
                            let n = decimal((i as u64) + 1);
                            return Err(concat_str("Invalid record at line ", n.as_str()));
                        }
                        let ghost before = record_views(records@);
                        let ghost fv = string_views(fields@);
                        records.push(fields);
                        assert(record_views(records@) =~= before.push(fv));
                    }
                },
            }
            i += 1;
        }
        Ok(records)
    }

    /// The numerals of column `column_index` of `data`, each checked to read as a
    /// floating-point number; an error when there is no data, when a row is too
    /// short, or when a field is not a number.
    pub fn numeric_column(&self, data: &[Vec<String>], column_index: usize) -> (r: Result<Vec<String>, String>)
        ensures
            data@.len() == 0 ==> (r matches Err(m) && m@ == "No data available for statistics"@),
            data@.len() > 0 ==> match numeric_column_from(record_views(data@), column_index as int, 0, Seq::empty()) {
                Ok(col) => r matches Ok(v) && string_views(v@) == col,
                Err(e) => r matches Err(m) && m@ == e,
            },
    {
        if data.len() == 0 {
            return Err("No data available for statistics".to_string());
        }
        let ghost rv = record_views(data@);
        let mut out: Vec<String> = Vec::new();
        let mut i: usize = 0;
        assert(string_views(out@) =~= Seq::<Seq<char>>::empty());
        while i < data.len()
            invariant
                i <= data@.len(),
                data@.len() > 0,
                rv == record_views(data@),
                numeric_column_from(rv, column_index as int, 0, Seq::empty()) == numeric_column_from(
                    rv,
                    column_index as int,
                    i as int,
                    string_views(out@),
                ),
            decreases data.len() - i,
        {
            assert(rv[i as int] == string_views(data@[i as int]@));
            if column_index >= data[i].len() {
                let a = concat_str("Column index ", decimal(column_index as u64).as_str());
                return Err(concat_str(a.as_str(), " out of bounds"));
            }
            let field = &data[i][column_index];
            assert(rv[i as int][column_index as int] == field@);
            let cs = chars_of(field.as_str());
            if !float_syntax_ok(cs.as_slice()) {
                let n = decimal(column_index as u64);
                return Err(concat_str("Invalid numeric value at column ", n.as_str()));
            }
            let ghost before = string_views(out@);
            out.push(field.clone());
            assert(string_views(out@) =~= before.push(field@));
            i += 1;
        }
        Ok(out)
    }
}

} // verus!
