//! A catalog of named, categorized, timestamped records, filtered by category and
//! checked for blank names and categories and for negative values.
//!
//! A record's value is of any type `V`; whether a value is negative is decided by
//! a function the caller passes in, and sums and averages of the values are taken
//! by the caller.
use vstd::prelude::*;
use crate::text::{trim, is_blank, str_eq};

verus! {

/// One record.
#[derive(Debug)]
pub struct DataRecord<V> {
    pub id: u32,
    pub name: String,
    pub value: V,
    pub category: String,
    pub timestamp: String,
}

/// A problem found in a record.
pub enum RecordProblem {
    BlankName,
    NegativeValue,
    BlankCategory,
}

/// The message of a problem.
pub open spec fn problem_text(p: RecordProblem) -> Seq<char> {
    match p {
        RecordProblem::BlankName => "Name cannot be empty"@,
        RecordProblem::NegativeValue => "Value cannot be negative"@,
        RecordProblem::BlankCategory => "Category cannot be empty"@,
    }
}

/// The problems of records `rs`, with their positions, in order; `negative[i]`
/// tells whether the value of `rs[i]` is negative.
pub open spec fn record_problems<V>(rs: Seq<DataRecord<V>>, negative: Seq<bool>) -> Seq<(int, Seq<char>)>
    decreases rs.len(),
{
    if rs.len() == 0 || negative.len() != rs.len() {
        Seq::empty()
    } else {
        let i = rs.len() - 1;
        let r = rs.last();
        let a = record_problems(rs.drop_last(), negative.drop_last());
        let b = if trim(r.name@).len() == 0 { a.push((i, problem_text(RecordProblem::BlankName))) } else { a };
        let c = if negative.last() { b.push((i, problem_text(RecordProblem::NegativeValue))) } else { b };
        if trim(r.category@).len() == 0 {
            c.push((i, problem_text(RecordProblem::BlankCategory)))
        } else {
            c
        }
    }
}

/// The records of `rs` whose category is `c`, in order.
pub open spec fn of_category<V>(rs: Seq<DataRecord<V>>, c: Seq<char>) -> Seq<DataRecord<V>>
    decreases rs.len(),
{
    if rs.len() == 0 {
        Seq::empty()
    } else {
        let r = of_category(rs.drop_last(), c);
        if rs.last().category@ == c {
            r.push(rs.last())
        } else {
            r
        }
    }
}

/// The records, dereferenced.
pub open spec fn derefs<V>(rs: Seq<&DataRecord<V>>) -> Seq<DataRecord<V>> {
    Seq::new(rs.len(), |i: int| *rs[i])
}

/// The views of problems with their positions.
pub open spec fn problem_views(ps: Seq<(usize, String)>) -> Seq<(int, Seq<char>)> {
    Seq::new(ps.len(), |i: int| (ps[i].0 as int, ps[i].1@))
}

/// A catalog of records.
pub struct DataProcessor<V> {
    records: Vec<DataRecord<V>>,
}

impl<V> DataProcessor<V> {
    /// The records held.
    pub closed spec fn items(&self) -> Seq<DataRecord<V>> {
        self.records@
    }

    /// An empty catalog.
    pub fn new() -> (p: DataProcessor<V>)
        ensures
            p.items() == Seq::<DataRecord<V>>::empty(),
    {
        DataProcessor { records: Vec::new() }
    }

    /// Adds a record at the end.
    pub fn add_record(&mut self, record: DataRecord<V>)
        ensures
            final(self).items() == old(self).items().push(record),
    {
        self.records.push(record);
    }

    /// The records whose category is `category`, in order.
    pub fn filter_by_category(&self, category: &str) -> (r: Vec<&DataRecord<V>>)
        ensures
            derefs(r@) == of_category(self.items(), category@),
    {
        let ghost s = self.items();
        let mut out: Vec<&DataRecord<V>> = Vec::new();
        let mut i: usize = 0;
        while i < self.records.len()
            invariant
                i <= s.len(),
                s == self.records@,
                derefs(out@) == of_category(s.take(i as int), category@),
            decreases self.records.len() - i,
        {
            assert(s.take(i + 1).drop_last() =~= s.take(i as int));
            let ghost before = derefs(out@);
            if str_eq(self.records[i].category.as_str(), category) {
                out.push(&self.records[i]);
                assert(derefs(out@) =~= before.push(s[i as int]));
            }
            i += 1;
        }
        assert(s.take(s.len() as int) =~= s);
        out
    }

    /// The problems of the records, with their positions, in order: a blank name,
    /// a negative value (as `is_negative` tells) and a blank category.
    pub fn validate_records(&self, is_negative: impl Fn(&V) -> bool) -> (r: Vec<(usize, String)>)
        requires
            forall|v: &V| call_requires(is_negative, (v,)),
        ensures
            exists|negative: Seq<bool>|
                {
                    &&& negative.len() == self.items().len()
                    &&& forall|i: int|
                        0 <= i < negative.len() ==> call_ensures(
                            is_negative,
                            (&#[trigger] self.items()[i].value,),
                            negative[i],
                        )
                    &&& problem_views(r@) == record_problems(self.items(), negative)
                },
    {
        let ghost s = self.items();
        let ghost mut negative: Seq<bool> = Seq::empty();
        let mut errors: Vec<(usize, String)> = Vec::new();
        let mut i: usize = 0;
        while i < self.records.len()
            invariant
                i <= s.len(),
                s == self.records@,
                negative.len() == i,
                forall|v: &V| call_requires(is_negative, (v,)),
                forall|k: int| 0 <= k < i ==> call_ensures(is_negative, (&#[trigger] s[k].value,), negative[k]),
                problem_views(errors@) == record_problems(s.take(i as int), negative),
            decreases self.records.len() - i,
        {
            let ghost before = problem_views(errors@);
            let neg = is_negative(&self.records[i].value);
            proof {
                let old_negative = negative;
                negative = negative.push(neg);
                assert(s.take(i + 1).drop_last() =~= s.take(i as int));
                assert(negative.drop_last() =~= old_negative);
                assert(s.take(i + 1).last() == s[i as int]);
            }
            let ghost a = before;
            if is_blank(self.records[i].name.as_str()) {
                errors.push((i, "Name cannot be empty".to_string()));
                assert(problem_views(errors@) =~= a.push((i as int, problem_text(RecordProblem::BlankName))));
            }
            let ghost b = problem_views(errors@);
            if neg {
                errors.push((i, "Value cannot be negative".to_string()));
                assert(problem_views(errors@) =~= b.push((i as int, problem_text(RecordProblem::NegativeValue))));
            }
            let ghost c = problem_views(errors@);
            if is_blank(self.records[i].category.as_str()) {
                errors.push((i, "Category cannot be empty".to_string()));
                assert(problem_views(errors@) =~= c.push((i as int, problem_text(RecordProblem::BlankCategory))));
            }
            i += 1;
        }
        assert(s.take(s.len() as int) =~= s);
        errors
    }

    /// The records held.
    pub fn get_records(&self) -> (r: &[DataRecord<V>])
        ensures
            r@ == self.items(),
    {
        self.records.as_slice()
    }

    /// Removes every record.
    pub fn clear(&mut self)
        ensures
            final(self).items() == Seq::<DataRecord<V>>::empty(),
    {
        self.records.clear();
    }
}

} // verus!
