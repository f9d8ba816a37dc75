//! Reading delimited records line by line, checking the header, and checking that
//! every record has the same number of non-empty fields.
//!
//! The file is opened and read outside; its lines (or the errors met reading
//! them) are handed in here.
use vstd::prelude::*;
use crate::text::{trim, is_blank, string_views, split_trimmed, trimmed_pieces, concat_str};
use crate::numbers::{decimal_text, signed_decimal};

verus! {

broadcast use vstd::string::group_string_axioms;

/// Why records could not be read or are not sound.
#[derive(Debug)]
pub enum CsvError {
    /// Reading failed; the reason is given.
    IoError(String),
    /// A line is wrong; its number (1 for the first) and the reason are given.
    ParseError(usize, String),
    /// The header is wrong; the reason is given.
    InvalidHeader(String),
}

impl CsvError {
    /// The text of the error.
    pub open spec fn text(&self) -> Seq<char> {
        match self {
            CsvError::IoError(m) => "IO error: "@ + m@,
            CsvError::ParseError(l, m) => "Parse error at line "@ + decimal_text(*l as nat) + ": "@ + m@,
            CsvError::InvalidHeader(m) => "Invalid header: "@ + m@,
        }
    }

    /// The text of the error.
    pub fn message(&self) -> (s: String)
        ensures
            s@ == self.text(),
    {
        match self {
            CsvError::IoError(m) => concat_str("IO error: ", m.as_str()),
            CsvError::ParseError(l, m) => {
                let a = concat_str("Parse error at line ", signed_decimal(*l as i128).as_str());
                let b = concat_str(a.as_str(), ": ");
                concat_str(b.as_str(), m.as_str())
            },
            CsvError::InvalidHeader(m) => concat_str("Invalid header: ", m.as_str()),
        }
    }
}

/// The view of a CSV error: its kind (0 reading, 1 a line, 2 the header), the line
/// number, and the reason.
pub open spec fn csv_error_view(e: CsvError) -> (int, int, Seq<char>) {
    match e {
        CsvError::IoError(m) => (0, 0, m@),
        CsvError::ParseError(l, m) => (1, l as int, m@),
        CsvError::InvalidHeader(m) => (2, 0, m@),
    }
}

/// The views of lines as read: each a line or the text of the error met.
pub open spec fn line_views(ls: Seq<Result<String, String>>) -> Seq<Result<Seq<char>, Seq<char>>> {
    Seq::new(
        ls.len(),
        |i: int|
            match ls[i] {
                Ok(l) => Ok(l@),
                Err(e) => Err(e@),
            },
    )
}

/// Reads and checks delimited records.
pub struct CsvProcessor {
    delimiter: char,
    has_header: bool,
}

/// The records of the lines `ls` from position `i` on, after `acc`: a read error
/// stops it, blank lines are passed over, and with a header the first line must
/// have no empty field.
pub open spec fn records_from(
    ls: Seq<Result<Seq<char>, Seq<char>>>,
    d: char,
    has_header: bool,
    i: int,
    acc: Seq<Seq<Seq<char>>>,
) -> Result<Seq<Seq<Seq<char>>>, (int, int, Seq<char>)>
    decreases ls.len() - i,
{
    if i < 0 || i >= ls.len() {
        Ok(acc)
    } else {
        match ls[i] {
            Err(e) => Err((0, 0, e)),
            Ok(l) => if trim(l).len() == 0 {
                records_from(ls, d, has_header, i + 1, acc)
            } else {
                let fields = trimmed_pieces(l, d);
                if has_header && i == 0 && exists|k: int| 0 <= k < fields.len() && fields[k].len() == 0 {
                    Err((2, 0, "Empty header field"@))
                } else {
                    records_from(ls, d, has_header, i + 1, acc.push(fields))
                }
            },
        }
    }
}

/// What reading the lines `ls` gives: the records, or the error; no records at all
/// is an error at line 0.
pub open spec fn read_records(ls: Seq<Result<Seq<char>, Seq<char>>>, d: char, has_header: bool) -> Result<
    Seq<Seq<Seq<char>>>,
    (int, int, Seq<char>),
> {
    match records_from(ls, d, has_header, 0, Seq::empty()) {
        Ok(rs) => if rs.len() == 0 {
            Err((1, 0, "File contains no data"@))
        } else {
            Ok(rs)
        },
        Err(e) => Err(e),
    }
}

/// The first problem of the records `rs` from position `i` on: each must have as
/// many fields as the first, and none empty; lines are counted after the header.
pub open spec fn records_problem(rs: Seq<Seq<Seq<char>>>, has_header: bool, i: int) -> Option<(int, Seq<char>)>
    decreases rs.len() - i,
{
    if i < 0 || i >= rs.len() {
        None
    } else {
        let line = if has_header { i + 2 } else { i + 1 };
        let expected = rs[0].len();
        if rs[i].len() != expected {
            Some((line, "Expected "@ + decimal_text(expected) + " fields, found "@ + decimal_text(rs[i].len())))
        } else if exists|k: int| 0 <= k < rs[i].len() && rs[i][k].len() == 0 {
            Some((line, "Empty field detected"@))
        } else {
            records_problem(rs, has_header, i + 1)
        }
    }
}

/// The views of records.
pub open spec fn record_views(rs: Seq<Vec<String>>) -> Seq<Seq<Seq<char>>> {
    Seq::new(rs.len(), |i: int| string_views(rs[i]@))
}

/// Whether one of `fields` is empty.
pub fn any_empty(fields: &Vec<String>) -> (b: bool)
    ensures
        b == exists|k: int| 0 <= k < fields@.len() && string_views(fields@)[k].len() == 0,
{
    let mut i: usize = 0;
    while i < fields.len()
        invariant
            i <= fields@.len(),
            forall|k: int| 0 <= k < i ==> fields@[k]@.len() != 0,
        decreases fields.len() - i,
    {
        if fields[i].as_str().is_empty() {
            assert(string_views(fields@)[i as int].len() == 0);
            return true;
        }
        i += 1;
    }
    assert forall|k: int| 0 <= k < fields@.len() implies string_views(fields@)[k].len() != 0 by {
        assert(string_views(fields@)[k] == fields@[k]@);
    }
    false
}

impl CsvProcessor {
    /// The delimiter.
    pub closed spec fn delimiter(&self) -> char {
        self.delimiter
    }

    /// Whether the first line is a header.
    pub closed spec fn has_header(&self) -> bool {
        self.has_header
    }

    /// A processor for fields split at `delimiter`, the first line being a header
    /// when `has_header` is set.
    pub fn new(delimiter: char, has_header: bool) -> (p: CsvProcessor)
        ensures
            p.delimiter() == delimiter,
            p.has_header() == has_header,
    {
        CsvProcessor { delimiter, has_header }
    }

    /// The records of a file: `lines` holds its lines as read, or the error met
    /// opening it.
    pub fn process_file(&self, lines: Result<Vec<Result<String, String>>, String>) -> (r: Result<Vec<Vec<String>>, CsvError>)
        ensures
            match lines {
                Err(e) => r matches Err(x) && csv_error_view(x) == (0int, 0int, e@),
                Ok(ls) => match read_records(line_views(ls@), self.delimiter(), self.has_header()) {
                    Ok(rs) => r matches Ok(v) && record_views(v@) == rs,
                    Err(e) => r matches Err(x) && csv_error_view(x) == e,
                },
            },
    {
        let ls = match lines {
            Err(e) => return Err(CsvError::IoError(e)),
            Ok(ls) => ls,
        };
        let ghost lv = line_views(ls@);
        let mut records: Vec<Vec<String>> = Vec::new();
        let mut i: usize = 0;
        assert(record_views(records@) =~= Seq::<Seq<Seq<char>>>::empty());
        while i < ls.len()
            invariant
                i <= ls@.len(),
                lines matches Ok(x) && x@ == ls@,
                lv == line_views(ls@),
                records_from(lv, self.delimiter, self.has_header, 0, Seq::empty()) == records_from(
                    lv,
                    self.delimiter,
                    self.has_header,
                    i as int,
                    record_views(records@),
                ),
            decreases ls.len() - i,
        {
            match &ls[i] {
                Err(e) => {
                    return Err(CsvError::IoError(e.clone()));
                },
                Ok(line) => {
                    if !is_blank(line.as_str()) {
                        let fields = split_trimmed(line.as_str(), self.delimiter);
                        if self.has_header && i == 0 && any_empty(&fields) {
                            return Err(CsvError::InvalidHeader("Empty header field".to_string()));
                        }
                        let ghost before = record_views(records@);
                        let ghost fv = string_views(fields@);
                        records.push(fields);
                        assert(record_views(records@) =~= before.push(fv));
                    }
                },
            }
            i += 1;
        }
        if records.len() == 0 {
            return Err(CsvError::ParseError(0, "File contains no data".to_string()));
        }
        Ok(records)
    }

    /// Checks that every record has as many fields as the first, none empty.
    pub fn validate_records(&self, records: &[Vec<String>]) -> (r: Result<(), CsvError>)
        requires
            records@.len() + 2 <= usize::MAX,
        ensures
            match records_problem(record_views(records@), self.has_header(), 0) {
                None => r is Ok,
                Some((line, msg)) => r matches Err(x) && csv_error_view(x) == (1int, line, msg),
            },
    {
        let ghost rv = record_views(records@);
        if records.len() == 0 {
            return Ok(());
        }
        let expected = records[0].len();
        let mut idx: usize = 0;
        while idx < records.len()
            invariant
                idx <= records@.len(),
                records@.len() > 0,
                records@.len() + 2 <= usize::MAX,
                rv == record_views(records@),
                expected == rv[0].len(),
                records_problem(rv, self.has_header, 0) == records_problem(rv, self.has_header, idx as int),
            decreases records.len() - idx,
        {
            let line = if self.has_header { idx + 2 } else { idx + 1 };
            assert(rv[idx as int].len() == records@[idx as int]@.len());
            if records[idx].len() != expected {
                let a = concat_str("Expected ", signed_decimal(expected as i128).as_str());
                let b = concat_str(a.as_str(), " fields, found ");
                let c = concat_str(b.as_str(), signed_decimal(records[idx].len() as i128).as_str());
                return Err(CsvError::ParseError(line, c));
            }
            if any_empty(&records[idx]) {
                return Err(CsvError::ParseError(line, "Empty field detected".to_string()));
            }
            idx += 1;
        }
        Ok(())
    }
}

} // verus!
