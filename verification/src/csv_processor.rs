//! Records read from comma-separated lines: an identifier, a name, a numeric value
//! and a category.
//!
//! The file is opened and read outside; its lines (or the errors met reading
//! them) are handed in here. A record's value is kept as the numeral read, which
//! is checked to read as a floating-point number.
use vstd::prelude::*;
use crate::text::{split_char, string_views, split_strings, concat_str};
use crate::numbers::{parse_unsigned, unsigned_failure, parse_unsigned_or_failure, decimal_text, signed_decimal};
use crate::float_syntax::{float_syntax, float_syntax_ok};
use crate::beacon::deneb::signed_beacon_block::csv_processor::line_views;

verus! {

broadcast use vstd::string::group_string_axioms;

/// One record.
#[derive(Debug)]
pub struct Record {
    pub id: u32,
    pub name: String,
    /// The numeral of the value, as written.
    pub value: String,
    pub category: String,
}

/// What `str::parse::<f64>` reports for text that is not a number.
pub open spec fn float_failure(s: Seq<char>) -> Seq<char> {
    if s.len() == 0 {
        "cannot parse float from empty string"@
    } else {
        "invalid float literal"@
    }
}

/// What reading a record from `line` gives: its fields, or why it cannot be read.
pub open spec fn record_of(line: Seq<char>) -> Result<(int, Seq<char>, Seq<char>, Seq<char>), Seq<char>> {
    let parts = split_char(line, ',');
    if parts.len() != 4 {
        Err("Invalid CSV format"@)
    } else {
        match parse_unsigned(parts[0], u32::MAX as int) {
            None => Err(unsigned_failure(parts[0], u32::MAX as int).text()),
            Some(id) => if float_syntax(parts[2]) {
                Ok((id, parts[1], parts[2], parts[3]))
            } else {
                Err(float_failure(parts[2]))
            },
        }
    }
}

/// The view of a record.
pub open spec fn record_view(r: Record) -> (int, Seq<char>, Seq<char>, Seq<char>) {
    (r.id as int, r.name@, r.value@, r.category@)
}

impl Record {
    /// The record on `line`.
    pub fn from_line(line: &str) -> (r: Result<Record, String>)
        ensures
            match record_of(line@) {
                Ok(f) => r matches Ok(x) && record_view(x) == f,
                Err(e) => r matches Err(m) && m@ == e,
            },
    {
        let parts = split_strings(line, ',');
        if parts.len() != 4 {
            return Err("Invalid CSV format".to_string());
        }
        assert(string_views(parts@)[0] == parts@[0]@);
        assert(string_views(parts@)[1] == parts@[1]@);
        assert(string_views(parts@)[2] == parts@[2]@);
        assert(string_views(parts@)[3] == parts@[3]@);
        let id = match parse_unsigned_or_failure(parts[0].as_str(), 4294967295) {
            Err(f) => return Err(f.message()),
            Ok(v) => v as u32,
        };
        let vc = crate::text::chars_of(parts[2].as_str());
        if !float_syntax_ok(vc.as_slice()) {
            if vc.len() == 0 {
                return Err("cannot parse float from empty string".to_string());
            }
            return Err("invalid float literal".to_string());
        }
        Ok(Record { id, name: parts[1].clone(), value: parts[2].clone(), category: parts[3].clone() })
    }
}

/// The note for a line that could not be read as a record.
pub open spec fn skip_note(line_number: int, err: Seq<char>) -> Seq<char> {
    "Warning: Skipping line "@ + decimal_text(line_number as nat) + ": "@ + err
}

/// The records of the lines `ls` from position `i` on, after `acc`, with notes:
/// the first line is a header; a read error stops it; a line that is not a record
/// gets a note.
pub open spec fn csv_records(
    ls: Seq<Result<Seq<char>, Seq<char>>>,
    i: int,
    acc: Seq<(int, Seq<char>, Seq<char>, Seq<char>)>,
    notes: Seq<Seq<char>>,
) -> Result<(Seq<(int, Seq<char>, Seq<char>, Seq<char>)>, Seq<Seq<char>>), Seq<char>>
    decreases ls.len() - i,
{
    if i < 0 || i >= ls.len() {
        Ok((acc, notes))
    } else {
        match ls[i] {
            Err(e) => Err(e),
            Ok(l) => if i == 0 {
                csv_records(ls, i + 1, acc, notes)
            } else {
                match record_of(l) {
                    Ok(r) => csv_records(ls, i + 1, acc.push(r), notes),
                    Err(e) => csv_records(ls, i + 1, acc, notes.push(skip_note(i + 1, e))),
                }
            },
        }
    }
}

/// The views of records.
pub open spec fn record_views(rs: Seq<Record>) -> Seq<(int, Seq<char>, Seq<char>, Seq<char>)> {
    Seq::new(rs.len(), |i: int| record_view(rs[i]))
}

/// The records of a file after its header line, with a note for each line
/// skipped; `lines` holds its lines as read, or the error met opening it.
pub fn process_csv_file(lines: Result<Vec<Result<String, String>>, String>) -> (r: Result<(Vec<Record>, Vec<String>), String>)
    ensures
        match lines {
            Err(e) => r matches Err(m) && m@ == e@,
            Ok(ls) => match csv_records(line_views(ls@), 0, Seq::empty(), Seq::empty()) {
                Ok((rs, notes)) => r matches Ok((v, n)) && record_views(v@) == rs && string_views(n@) == notes,
                Err(e) => r matches Err(m) && m@ == e,
            },
        },
{
    let ls = match lines {
        Err(e) => return Err(e),
        Ok(ls) => ls,
    };
    let ghost lv = line_views(ls@);
    let mut records: Vec<Record> = Vec::new();
    let mut notes: Vec<String> = Vec::new();
    let mut i: usize = 0;
    assert(record_views(records@) =~= Seq::<(int, Seq<char>, Seq<char>, Seq<char>)>::empty());
    assert(string_views(notes@) =~= Seq::<Seq<char>>::empty());
    while i < ls.len()
        invariant
            i <= ls@.len(),
            lines matches Ok(x) && x@ == ls@,
            lv == line_views(ls@),
            csv_records(lv, 0, Seq::empty(), Seq::empty()) == csv_records(
                lv,
                i as int,
                record_views(records@),
                string_views(notes@),
            ),
        decreases ls.len() - i,
    {
        match &ls[i] {
            Err(e) => {
                return Err(e.clone());
            },
            Ok(line) => {
                if i > 0 {
                    match Record::from_line(line.as_str()) {
                        Ok(rec) => {
                            let ghost before = record_views(records@);
                            let ghost rv = record_view(rec);
                            records.push(rec);
                            assert(record_views(records@) =~= before.push(rv));
                        },
                        Err(e) => {
                            let a = concat_str("Warning: Skipping line ", signed_decimal((i as i128) + 1).as_str());
                            let b = concat_str(a.as_str(), ": ");
                            let ghost nv = string_views(notes@);
                            notes.push(concat_str(b.as_str(), e.as_str()));
                            assert(string_views(notes@) =~= nv.push(skip_note(i + 1, e@)));
                        },
                    }
                }
            },
        }
        i += 1;
    }
    Ok((records, notes))
}

} // verus!
