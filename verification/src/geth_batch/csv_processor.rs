//! Records of four comma-separated fields: an identifier, a name, a numeric value
//! and an `active` flag.
//!
//! The file is read outside; its lines (or the error met reading one) are handed
//! in here. A record's value is kept as the numeral read, which is checked to
//! read as a floating-point number; sums and averages of the values are taken by
//! the caller.
use vstd::prelude::*;
use crate::text::{split_char, string_views, split_strings, concat_str, str_eq};
use crate::numbers::{parse_unsigned, unsigned_failure, parse_unsigned_or_failure, decimal_text};
use crate::float_syntax::{float_syntax, float_syntax_ok};
use crate::csv_processor::float_failure;
use crate::packets::decimal;
use crate::beacon::deneb::signed_beacon_block::csv_processor::line_views;

verus! {

broadcast use vstd::string::group_string_axioms;

/// One record.
#[derive(Debug)]
pub struct CsvRecord {
    pub id: u32,
    pub name: String,
    /// The numeral of the value, as written.
    pub value: String,
    pub active: bool,
}

/// What `str::parse::<bool>` gives for `s`.
pub open spec fn bool_of(s: Seq<char>) -> Option<bool> {
    if s == "true"@ {
        Some(true)
    } else if s == "false"@ {
        Some(false)
    } else {
        None
    }
}

/// What reading a record from `line` gives: its fields, or the message of the
/// first field that cannot be read.
pub open spec fn csv_record_of(line: Seq<char>) -> Result<(u32, Seq<char>, Seq<char>, bool), Seq<char>> {
    let parts = split_char(line, ',');
    if parts.len() != 4 {
        Err("Invalid number of fields"@)
    } else {
        match parse_unsigned(parts[0], u32::MAX as int) {
            None => Err(unsigned_failure(parts[0], u32::MAX as int).text()),
            Some(id) => if !float_syntax(parts[2]) {
                Err(float_failure(parts[2]))
            } else {
                match bool_of(parts[3]) {
                    None => Err("provided string was not `true` or `false`"@),
                    Some(a) => Ok((id as u32, parts[1], parts[2], a)),
                }
            },
        }
    }
}

/// The view of a record.
pub open spec fn csv_record_view(r: CsvRecord) -> (u32, Seq<char>, Seq<char>, bool) {
    (r.id, r.name@, r.value@, r.active)
}

/// `str::parse::<bool>`.
fn parse_bool(s: &str) -> (r: Option<bool>)
    ensures
        r == bool_of(s@),
{
    proof {
        reveal_strlit("true");
        reveal_strlit("false");
    }
    if str_eq(s, "true") {
        Some(true)
    } else if str_eq(s, "false") {
        Some(false)
    } else {
        None
    }
}

impl CsvRecord {
    /// The record on `line`.
    pub fn from_line(line: &str) -> (r: Result<CsvRecord, String>)
        ensures
            match csv_record_of(line@) {
                Ok(f) => r matches Ok(x) && csv_record_view(x) == f,
                Err(e) => r matches Err(m) && m@ == e,
            },
    {
        let parts = split_strings(line, ',');
        if parts.len() != 4 {
            return Err("Invalid number of fields".to_string());
        }
        assert(string_views(parts@)[0] == parts@[0]@);
        assert(string_views(parts@)[1] == parts@[1]@);
        assert(string_views(parts@)[2] == parts@[2]@);
        assert(string_views(parts@)[3] == parts@[3]@);
        let id = match parse_unsigned_or_failure(parts[0].as_str(), 4294967295) {
            Err(f) => return Err(f.message()),
            Ok(v) => v as u32,
        };
        let vc = crate::text::chars_of(parts[2].as_str());
        if !float_syntax_ok(vc.as_slice()) {
            if vc.len() == 0 {
                return Err("cannot parse float from empty string".to_string());
            }
            return Err("invalid float literal".to_string());
        }
        let active = match parse_bool(parts[3].as_str()) {
            None => return Err("provided string was not `true` or `false`".to_string()),
            Some(a) => a,
        };
        Ok(CsvRecord { id, name: parts[1].clone(), value: parts[2].clone(), active })
    }
}

/// The note for a line that could not be read as a record.
pub open spec fn parse_note(line_number: int, err: Seq<char>) -> Seq<char> {
    "Error parsing line "@ + decimal_text(line_number as nat) + ": "@ + err
}

/// The records of the lines `ls` from position `i` on, after `acc`, with notes:
/// a read error stops it, an empty line is passed over, and a line that is not a
/// record gets a note.
pub open spec fn line_records(
    ls: Seq<Result<Seq<char>, Seq<char>>>,
    i: int,
    acc: Seq<(u32, Seq<char>, Seq<char>, bool)>,
    notes: Seq<Seq<char>>,
) -> Result<(Seq<(u32, Seq<char>, Seq<char>, bool)>, Seq<Seq<char>>), Seq<char>>
    decreases ls.len() - i,
{
    if i < 0 || i >= ls.len() {
        Ok((acc, notes))
    } else {
        match ls[i] {
            Err(e) => Err(e),
            Ok(l) => if l.len() == 0 {
                line_records(ls, i + 1, acc, notes)
            } else {
                match csv_record_of(l) {
                    Ok(r) => line_records(ls, i + 1, acc.push(r), notes),
                    Err(e) => line_records(ls, i + 1, acc, notes.push(parse_note(i + 1, e))),
                }
            },
        }
    }
}

/// The views of records.
pub open spec fn csv_record_views(rs: Seq<CsvRecord>) -> Seq<(u32, Seq<char>, Seq<char>, bool)> {
    Seq::new(rs.len(), |i: int| csv_record_view(rs[i]))
}

/// The records of a file with a note for each line that could not be read;
/// `lines` holds its lines as read, or the error met opening it.
pub fn process_csv_file(lines: Result<Vec<Result<String, String>>, String>) -> (r: Result<(Vec<CsvRecord>, Vec<String>), String>)
    ensures
        match lines {
            Err(e) => r matches Err(m) && m@ == e@,
            Ok(ls) => match line_records(line_views(ls@), 0, Seq::empty(), Seq::empty()) {
                Ok((rs, notes)) => r matches Ok((v, n)) && csv_record_views(v@) == rs
                    && string_views(n@) == notes,
                Err(e) => r matches Err(m) && m@ == e,
            },
        },
{
    let ls = match lines {
        Err(e) => return Err(e),
        Ok(ls) => ls,
    };
    let ghost lv = line_views(ls@);
    let mut records: Vec<CsvRecord> = Vec::new();
    let mut notes: Vec<String> = Vec::new();
    let mut i: usize = 0;
    assert(csv_record_views(records@) =~= Seq::<(u32, Seq<char>, Seq<char>, bool)>::empty());
    assert(string_views(notes@) =~= Seq::<Seq<char>>::empty());
    while i < ls.len()
        invariant
            i <= ls@.len(),
            lines matches Ok(x) && x@ == ls@,
            lv == line_views(ls@),
            line_records(lv, 0, Seq::empty(), Seq::empty()) == line_records(
                lv,
                i as int,
                csv_record_views(records@),
                string_views(notes@),
            ),
        decreases ls.len() - i,
    {
        match &ls[i] {
            Err(e) => {
                return Err(e.clone());
            },
            Ok(line) => {
                if !line.as_str().is_empty() {
                    match CsvRecord::from_line(line.as_str()) {
                        Ok(rec) => {
                            let ghost before = csv_record_views(records@);
                            let ghost rv = csv_record_view(rec);
                            records.push(rec);
                            assert(csv_record_views(records@) =~= before.push(rv));
                        },
                        Err(e) => {
                            let a = concat_str("Error parsing line ", decimal((i as u64) + 1).as_str());
                            let b = concat_str(a.as_str(), ": ");
                            let ghost nv = string_views(notes@);
                            notes.push(concat_str(b.as_str(), e.as_str()));
                            assert(string_views(notes@) =~= nv.push(parse_note(i + 1, e@)));
                        },
                    }
                }
            },
        }
        i += 1;
    }
    Ok((records, notes))
}

/// How many records of `rs` are active.
pub open spec fn active_count(rs: Seq<(u32, Seq<char>, Seq<char>, bool)>) -> nat
    decreases rs.len(),
{
    if rs.len() == 0 {
        0
    } else {
        active_count(rs.drop_last()) + if rs.last().3 { 1nat } else { 0nat }
    }
}

/// How many of the records are active.
pub fn count_active(records: &Vec<CsvRecord>) -> (n: usize)
    ensures
        n == active_count(csv_record_views(records@)),
{
    let ghost s = csv_record_views(records@);
    let mut n: usize = 0;
    let mut i: usize = 0;
    while i < records.len()
        invariant
            i <= records@.len(),
            s == csv_record_views(records@),
            n == active_count(s.take(i as int)),
            n <= i,
        decreases records.len() - i,
    {
        assert(s.take(i + 1).drop_last() =~= s.take(i as int));
        if records[i].active {
            n += 1;
        }
        i += 1;
    }
    assert(s.take(records@.len() as int) =~= s);
    n
}

} // verus!
