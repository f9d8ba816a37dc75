//! Rows of fields split at a delimiter, with an optional header line, and a check
//! that every row has as many fields as the first.
//!
//! The file is read outside; its lines (or the error met reading one) are handed
//! in here.
use vstd::prelude::*;
use crate::text::{string_views, trimmed_pieces, split_trimmed, concat_str};
use crate::numbers::decimal_text;
use crate::packets::decimal;
use crate::beacon::deneb::signed_beacon_block::csv_processor::{line_views, record_views, any_empty};

verus! {

/// Splits lines into trimmed fields.
pub struct DataProcessor {
    delimiter: char,
    has_header: bool,
}

/// The message for an empty field on line `n`.
pub open spec fn empty_field_message(n: int) -> Seq<char> {
    "Empty field detected at line "@ + decimal_text(n as nat)
}

/// The rows of the lines `ls` from position `i` on, after `acc`: a read error
/// stops it, and so does a line with an empty field; lines are numbered from 1,
/// the header line included.
pub open spec fn field_rows_from(
    ls: Seq<Result<Seq<char>, Seq<char>>>,
    d: char,
    i: int,
    acc: Seq<Seq<Seq<char>>>,
) -> Result<Seq<Seq<Seq<char>>>, Seq<char>>
    decreases ls.len() - i,
{
    if i < 0 || i >= ls.len() {
        Ok(acc)
    } else {
        match ls[i] {
            Err(e) => Err(e),
            Ok(l) => {
                let fields = trimmed_pieces(l, d);
                if exists|k: int| 0 <= k < fields.len() && fields[k].len() == 0 {
                    Err(empty_field_message(i + 1))
                } else {
                    field_rows_from(ls, d, i + 1, acc.push(fields))
                }
            },
        }
    }
}

/// The message for a row with the wrong number of fields.
pub open spec fn field_count_message(row: int, found: int, expected: int) -> Seq<char> {
    "Record "@ + decimal_text(row as nat) + " has "@ + decimal_text(found as nat) + " fields, expected "@
        + decimal_text(expected as nat)
}

/// The first row of `rs`, from position `i` on, whose number of fields differs
/// from that of the first row, with its message.
pub open spec fn field_count_problem(rs: Seq<Seq<Seq<char>>>, i: int) -> Option<Seq<char>>
    decreases rs.len() - i,
{
    if i < 0 || i >= rs.len() {
        None
    } else if rs[i].len() != rs[0].len() {
        Some(field_count_message(i + 1, rs[i].len() as int, rs[0].len() as int))
    } else {
        field_count_problem(rs, i + 1)
    }
}

impl DataProcessor {
    /// The delimiter.
    pub closed spec fn delimiter(&self) -> char {
        self.delimiter
    }

    /// Whether the first line is a header.
    pub closed spec fn has_header(&self) -> bool {
        self.has_header
    }

    /// A processor splitting at `delimiter`, passing over a header line when
    /// `has_header` is set.
    pub fn new(delimiter: char, has_header: bool) -> (p: DataProcessor)
        ensures
            p.delimiter() == delimiter,
            p.has_header() == has_header,
    {
        DataProcessor { delimiter, has_header }
    }

    /// The rows of a file, each line split at the delimiter and trimmed; a line
    /// with an empty field is an error. `lines` holds the lines as read, or the
    /// error met opening the file.
    pub fn process_file(&self, lines: Result<Vec<Result<String, String>>, String>) -> (r: Result<Vec<Vec<String>>, String>)
        ensures
            match lines {
                Err(e) => r matches Err(m) && m@ == e@,
                Ok(ls) => match field_rows_from(
                    line_views(ls@),
                    self.delimiter(),
                    if self.has_header() { 1 } else { 0 },
                    Seq::empty(),
                ) {
                    Ok(rs) => r matches Ok(v) && record_views(v@) == rs,
                    Err(e) => r matches Err(m) && m@ == e,
                },
            },
    {
        let ls = match lines {
            Err(e) => return Err(e),
            Ok(ls) => ls,
        };
        let ghost lv = line_views(ls@);
        let ghost start: int = if self.has_header { 1int } else { 0int };
        let mut records: Vec<Vec<String>> = Vec::new();
        let mut i: usize = if self.has_header { 1 } else { 0 };
        assert(record_views(records@) =~= Seq::<Seq<Seq<char>>>::empty());
        if i > ls.len() {
            return Ok(records);
        }
        while i < ls.len()
            invariant
                i <= ls@.len(),
                lines matches Ok(x) && x@ == ls@,
                lv == line_views(ls@),
                start == (if self.has_header { 1int } else { 0int }),
                field_rows_from(lv, self.delimiter, start, Seq::empty()) == field_rows_from(
                    lv,
                    self.delimiter,
                    i as int,
                    record_views(records@),
                ),
            decreases ls.len() - i,
        {
            match &ls[i] {
                Err(e) => {
                    return Err(e.clone());
                },
                Ok(line) => {
                    let fields = split_trimmed(line.as_str(), self.delimiter);
                    if any_empty(&fields) {
                        let n = decimal((i as u64) + 1);
                        return Err(concat_str("Empty field detected at line ", n.as_str()));
                    }
                    let ghost before = record_views(records@);
                    let ghost fv = string_views(fields@);
                    records.push(fields);
                    assert(record_views(records@) =~= before.push(fv));
                },
            }
            i += 1;
        }
        Ok(records)
    }

    /// Checks that there are records and that each has as many fields as the
    /// first.
    pub fn validate_records(&self, records: &[Vec<String>]) -> (r: Result<(), String>)
        ensures
            record_views(records@).len() == 0 ==> (r matches Err(m) && m@ == "No records to validate"@),
            record_views(records@).len() > 0 ==> match field_count_problem(record_views(records@), 0) {
                None => r is Ok,
                Some(msg) => r matches Err(m) && m@ == msg,
            },
    {
        let ghost rv = record_views(records@);
        if records.len() == 0 {
            return Err("No records to validate".to_string());
        }
        let expected = records[0].len();
        let mut idx: usize = 0;
        while idx < records.len()
            invariant
                idx <= records@.len(),
                records@.len() > 0,
                rv == record_views(records@),
                expected == rv[0].len(),
                field_count_problem(rv, 0) == field_count_problem(rv, idx as int),
            decreases records.len() - idx,
        {
            assert(rv[idx as int].len() == records@[idx as int]@.len());
            if records[idx].len() != expected {
                let a = concat_str("Record ", decimal((idx as u64) + 1).as_str());
                let b = concat_str(a.as_str(), " has ");
                let c = concat_str(b.as_str(), decimal(records[idx].len() as u64).as_str());
                let d = concat_str(c.as_str(), " fields, expected ");
                return Err(concat_str(d.as_str(), decimal(expected as u64).as_str()));
            }
            idx += 1;
        }
        Ok(())
    }
}

} // verus!
