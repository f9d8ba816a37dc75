//! Records of an identifier, a numeric value and a category, read from the lines
//! of a comma-separated file whose first line is a header; lines that do not hold
//! such a record are passed over.
//!
//! The file is read outside; its lines (or the error met reading one) are handed
//! in here. A record's value is kept as the numeral read, which is checked to
//! read as a floating-point number; averages and maxima of the values are taken
//! by the caller.
use vstd::prelude::*;
use crate::text::{split_char, string_views, split_strings, trim, trim_str, str_eq};
use crate::numbers::{parse_unsigned, parse_unsigned_str};
use crate::float_syntax::{float_syntax, float_syntax_ok};
use crate::beacon::deneb::signed_beacon_block::csv_processor::line_views;

verus! {

broadcast use vstd::string::group_string_axioms;

/// One record.
#[derive(Debug)]
pub struct DataRecord {
    pub id: u32,
    /// The numeral of the value, as written.
    pub value: String,
    pub category: String,
}

/// The view of a record.
pub open spec fn data_record_view(r: DataRecord) -> (u32, Seq<char>, Seq<char>) {
    (r.id, r.value@, r.category@)
}

/// The views of records.
pub open spec fn data_record_views(rs: Seq<DataRecord>) -> Seq<(u32, Seq<char>, Seq<char>)> {
    Seq::new(rs.len(), |i: int| data_record_view(rs[i]))
}

/// The views of borrowed records.
pub open spec fn data_record_ref_views(rs: Seq<&DataRecord>) -> Seq<(u32, Seq<char>, Seq<char>)> {
    Seq::new(rs.len(), |i: int| data_record_view(*rs[i]))
}

/// The record on `line`, if it holds one: three fields, an identifier, a number
/// and a category that is not blank.
pub open spec fn line_record(line: Seq<char>) -> Option<(u32, Seq<char>, Seq<char>)> {
    let parts = split_char(line, ',');
    if parts.len() != 3 {
        None
    } else {
        match parse_unsigned(parts[0], u32::MAX as int) {
            None => None,
            Some(id) => if float_syntax(parts[1]) && trim(parts[2]).len() > 0 {
                Some((id as u32, parts[1], trim(parts[2])))
            } else {
                None
            },
        }
    }
}

/// The records of the lines `ls` from position `i` on, after `acc`; the first
/// line is a header and a read error stops it.
pub open spec fn loaded_records(
    ls: Seq<Result<Seq<char>, Seq<char>>>,
    i: int,
    acc: Seq<(u32, Seq<char>, Seq<char>)>,
) -> Result<Seq<(u32, Seq<char>, Seq<char>)>, Seq<char>>
    decreases ls.len() - i,
{
    if i < 0 || i >= ls.len() {
        Ok(acc)
    } else {
        match ls[i] {
            Err(e) => Err(e),
            Ok(l) => if i == 0 {
                loaded_records(ls, i + 1, acc)
            } else {
                match line_record(l) {
                    Some(r) => loaded_records(ls, i + 1, acc.push(r)),
                    None => loaded_records(ls, i + 1, acc),
                }
            },
        }
    }
}

/// The records read from the lines `ls` from position `i` on, after `acc`, up to
/// the end or to the first read error, whichever comes first.
pub open spec fn records_read(
    ls: Seq<Result<Seq<char>, Seq<char>>>,
    i: int,
    acc: Seq<(u32, Seq<char>, Seq<char>)>,
) -> Seq<(u32, Seq<char>, Seq<char>)>
    decreases ls.len() - i,
{
    if i < 0 || i >= ls.len() {
        acc
    } else {
        match ls[i] {
            Err(_) => acc,
            Ok(l) => if i == 0 {
                records_read(ls, i + 1, acc)
            } else {
                match line_record(l) {
                    Some(r) => records_read(ls, i + 1, acc.push(r)),
                    None => records_read(ls, i + 1, acc),
                }
            },
        }
    }
}

/// The records of `rs` whose category is `c`, in order.
pub open spec fn in_category(rs: Seq<(u32, Seq<char>, Seq<char>)>, c: Seq<char>) -> Seq<(u32, Seq<char>, Seq<char>)>
    decreases rs.len(),
{
    if rs.len() == 0 {
        Seq::empty()
    } else {
        let r = in_category(rs.drop_last(), c);
        if rs.last().2 == c {
            r.push(rs.last())
        } else {
            r
        }
    }
}

impl DataRecord {
    /// The views of borrowed records.
pub open spec fn data_record_ref_views(rs: Seq<&DataRecord>) -> Seq<(u32, Seq<char>, Seq<char>)> {
    Seq::new(rs.len(), |i: int| data_record_view(*rs[i]))
}

/// The record on `line`, if it holds one.
    pub fn from_line(line: &str) -> (r: Option<DataRecord>)
        ensures
            match line_record(line@) {
                None => r is None,
                Some(f) => r matches Some(x) && data_record_view(x) == f,
            },
    {
        let parts = split_strings(line, ',');
        if parts.len() != 3 {
            return None;
        }
        assert(string_views(parts@)[0] == parts@[0]@);
        assert(string_views(parts@)[1] == parts@[1]@);
        assert(string_views(parts@)[2] == parts@[2]@);
        let id = match parse_unsigned_str(parts[0].as_str(), 4294967295) {
            None => return None,
            Some(v) => v as u32,
        };
        let vc = crate::text::chars_of(parts[1].as_str());
        if !float_syntax_ok(vc.as_slice()) {
            return None;
        }
        let category = trim_str(parts[2].as_str());
        if category.as_str().is_empty() {
            return None;
        }
        Some(DataRecord { id, value: parts[1].clone(), category })
    }
}

/// A collection of records.
pub struct DataProcessor {
    records: Vec<DataRecord>,
}

impl DataProcessor {
    /// The records held.
    pub closed spec fn items(&self) -> Seq<(u32, Seq<char>, Seq<char>)> {
        data_record_views(self.records@)
    }

    /// An empty collection.
    pub fn new() -> (p: DataProcessor)
        ensures
            p.items() == Seq::<(u32, Seq<char>, Seq<char>)>::empty(),
    {
        let p = DataProcessor { records: Vec::new() };
        assert(p.items() =~= Seq::<(u32, Seq<char>, Seq<char>)>::empty());
        p
    }

    /// Adds the records of a file's lines after its header, passing over lines
    /// that hold no record, and gives how many were added. `lines` holds the
    /// lines as read, or the error met opening the file. Records added before a
    /// read error stay.
    pub fn load_from_csv(&mut self, lines: Result<Vec<Result<String, String>>, String>) -> (r: Result<usize, String>)
        ensures
            match lines {
                Err(e) => r matches Err(m) && m@ == e@ && final(self).items() == old(self).items(),
                Ok(ls) => match loaded_records(line_views(ls@), 0, Seq::empty()) {
                    Ok(rs) => r matches Ok(n) && n == rs.len() && final(self).items() == old(self).items() + rs,
                    Err(e) => r matches Err(m) && m@ == e
                        && final(self).items() == old(self).items() + records_read(line_views(ls@), 0, Seq::empty()),
                },
            },
    {
        let ls = match lines {
            Err(e) => return Err(e),
            Ok(ls) => ls,
        };
        let ghost lv = line_views(ls@);
        let ghost start = self.items();
        let mut count: usize = 0;
        let mut i: usize = 0;
        assert(start.skip(start.len() as int) =~= Seq::<(u32, Seq<char>, Seq<char>)>::empty());
        assert(start.take(start.len() as int) =~= start);
        while i < ls.len()
            invariant
                i <= ls@.len(),
                lines matches Ok(x) && x@ == ls@,
                lv == line_views(ls@),
                start == old(self).items(),
                start.len() + count == self.items().len(),
                count <= i,
                self.items().take(start.len() as int) == start,
                loaded_records(lv, 0, Seq::empty()) == loaded_records(
                    lv,
                    i as int,
                    self.items().skip(start.len() as int),
                ),
                records_read(lv, 0, Seq::empty()) == records_read(
                    lv,
                    i as int,
                    self.items().skip(start.len() as int),
                ),
            decreases ls.len() - i,
        {
            match &ls[i] {
                Err(e) => {
                    assert(lv[i as int] == Err::<Seq<char>, Seq<char>>(e@));
                    assert(records_read(lv, i as int, self.items().skip(start.len() as int)) == self.items().skip(
                        start.len() as int,
                    ));
                    assert(self.items() =~= start + self.items().skip(start.len() as int));
                    return Err(e.clone());
                },
                Ok(line) => {
                    if i > 0 {
                        match DataRecord::from_line(line.as_str()) {
                            Some(rec) => {
                                let ghost before = self.items();
                                let ghost rv = data_record_view(rec);
                                self.records.push(rec);
                                assert(self.items() =~= before.push(rv));
                                assert(self.items().skip(start.len() as int) =~= before.skip(
                                    start.len() as int,
                                ).push(rv));
                                assert(self.items().take(start.len() as int) =~= before.take(
                                    start.len() as int,
                                ));
                                count += 1;
                            },
                            None => {},
                        }
                    }
                },
            }
            i += 1;
        }
        assert(self.items() =~= start + self.items().skip(start.len() as int));
        Ok(count)
    }

    /// The records whose category is `category`, in order.
    pub fn filter_by_category(&self, category: &str) -> (r: Vec<&DataRecord>)
        ensures
            data_record_ref_views(r@) == in_category(self.items(), category@),
    {
        let ghost s = self.items();
        let mut out: Vec<&DataRecord> = Vec::new();
        let mut i: usize = 0;
        while i < self.records.len()
            invariant
                i <= self.records@.len(),
                s == data_record_views(self.records@),
                data_record_ref_views(out@) == in_category(s.take(i as int), category@),
            decreases self.records.len() - i,
        {
            assert(s.take(i + 1).drop_last() =~= s.take(i as int));
            let ghost before = data_record_ref_views(out@);
            if str_eq(self.records[i].category.as_str(), category) {
                out.push(&self.records[i]);
                assert(data_record_ref_views(out@) =~= before.push(s[i as int]));
            }
            i += 1;
        }
        assert(s.take(self.records@.len() as int) =~= s);
        out
    }

    /// The records held.
    pub fn get_records(&self) -> (r: &Vec<DataRecord>)
        ensures
            data_record_views(r@) == self.items(),
    {
        &self.records
    }

    /// How many records are held.
    pub fn get_record_count(&self) -> (n: usize)
        ensures
            n == self.items().len(),
    {
        self.records.len()
    }

    /// Removes every record.
    pub fn clear(&mut self)
        ensures
            final(self).items() == Seq::<(u32, Seq<char>, Seq<char>)>::empty(),
    {
        self.records.clear();
        assert(self.items() =~= Seq::<(u32, Seq<char>, Seq<char>)>::empty());
    }
}

} // verus!
