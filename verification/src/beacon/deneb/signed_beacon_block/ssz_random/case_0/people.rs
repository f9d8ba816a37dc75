//! Person records (an identifier, a name, an age and an `active` flag) selected
//! by activity or by an age range.
//!
//! The records are read from and written to CSV files outside.
use vstd::prelude::*;

verus! {

/// One person record.
#[derive(Debug)]
pub struct Record {
    pub id: u32,
    pub name: String,
    pub age: u8,
    pub active: bool,
}

/// The records of `rs` that `keep` accepts, in order.
pub open spec fn kept_records(rs: Seq<Record>, keep: spec_fn(Record) -> bool) -> Seq<Record>
    decreases rs.len(),
{
    if rs.len() == 0 {
        Seq::empty()
    } else {
        let r = kept_records(rs.drop_last(), keep);
        if keep(rs.last()) {
            r.push(rs.last())
        } else {
            r
        }
    }
}

/// The records, dereferenced.
pub open spec fn record_derefs(rs: Seq<&Record>) -> Seq<Record> {
    Seq::new(rs.len(), |i: int| *rs[i])
}

/// A collection of person records.
pub struct DataProcessor {
    pub records: Vec<Record>,
}

impl DataProcessor {
    /// No records.
    pub fn new() -> (p: DataProcessor)
        ensures
            p.records@ == Seq::<Record>::empty(),
    {
        DataProcessor { records: Vec::new() }
    }

    /// The active records, in order.
    pub fn filter_active(&self) -> (r: Vec<&Record>)
        ensures
            record_derefs(r@) == kept_records(self.records@, |x: Record| x.active),
    {
        let ghost s = self.records@;
        let mut out: Vec<&Record> = Vec::new();
        let mut i: usize = 0;
        while i < self.records.len()
            invariant
                i <= s.len(),
                s == self.records@,
                record_derefs(out@) == kept_records(s.take(i as int), |x: Record| x.active),
            decreases self.records.len() - i,
        {
            assert(s.take(i + 1).drop_last() =~= s.take(i as int));
            let ghost before = record_derefs(out@);
            if self.records[i].active {
                out.push(&self.records[i]);
                assert(record_derefs(out@) =~= before.push(s[i as int]));
            }
            i += 1;
        }
        assert(s.take(s.len() as int) =~= s);
        out
    }

    /// The records whose age lies in `min_age..=max_age`, in order.
    pub fn filter_by_age(&self, min_age: u8, max_age: u8) -> (r: Vec<&Record>)
        ensures
            record_derefs(r@) == kept_records(self.records@, |x: Record| min_age <= x.age <= max_age),
    {
        let ghost s = self.records@;
        let mut out: Vec<&Record> = Vec::new();
        let mut i: usize = 0;
        while i < self.records.len()
            invariant
                i <= s.len(),
                s == self.records@,
                record_derefs(out@) == kept_records(s.take(i as int), |x: Record| min_age <= x.age <= max_age),
            decreases self.records.len() - i,
        {
            assert(s.take(i + 1).drop_last() =~= s.take(i as int));
            let ghost before = record_derefs(out@);
            if self.records[i].age >= min_age && self.records[i].age <= max_age {
                out.push(&self.records[i]);
                assert(record_derefs(out@) =~= before.push(s[i as int]));
            }
            i += 1;
        }
        assert(s.take(s.len() as int) =~= s);
        out
    }
}

} // verus!
