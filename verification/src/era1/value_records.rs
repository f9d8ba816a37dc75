//! Records of an identifier, a value, a category and a timestamp, read from the
//! lines of a comma-separated file whose first line is a header; lines that do
//! not hold a valid record are passed over.
//!
//! A record's value is of any type `V`: the caller passes in the function that
//! reads a value from its text and the one that tells whether a value is finite,
//! and takes averages and extremes of the values itself.
use vstd::prelude::*;
use crate::text::{split_char, string_views, split_strings, str_eq};
use crate::numbers::{parse_unsigned, parse_unsigned_str};
use crate::beacon::deneb::signed_beacon_block::csv_processor::line_views;

verus! {

broadcast use vstd::string::group_string_axioms;

/// One record.
#[derive(Debug)]
pub struct DataRecord<V> {
    pub id: u32,
    pub value: V,
    pub category: String,
    pub timestamp: String,
}

impl<V> DataRecord<V> {
    /// A record of the given fields.
    pub fn new(id: u32, value: V, category: String, timestamp: String) -> (r: DataRecord<V>)
        ensures
            r == (DataRecord { id, value, category, timestamp }),
    {
        DataRecord { id, value, category, timestamp }
    }

    /// Whether the record has a category and a finite value, as `is_finite` tells.
    pub fn is_valid(&self, is_finite: impl Fn(&V) -> bool) -> (b: bool)
        requires
            call_requires(is_finite, (&self.value,)),
        ensures
            self.category@.len() == 0 ==> !b,
            self.category@.len() > 0 ==> call_ensures(is_finite, (&self.value,), b),
    {
        !self.category.as_str().is_empty() && is_finite(&self.value)
    }
}

/// The fields of `line` when it has four, the first being an identifier.
pub open spec fn line_fields(line: Seq<char>) -> Option<(u32, Seq<char>, Seq<char>, Seq<char>)> {
    let parts = split_char(line, ',');
    if parts.len() != 4 {
        None
    } else {
        match parse_unsigned(parts[0], u32::MAX as int) {
            None => None,
            Some(id) => Some((id as u32, parts[1], parts[2], parts[3])),
        }
    }
}

/// The records of `rs` whose category is `c`, in order.
pub open spec fn with_category<V>(rs: Seq<DataRecord<V>>, c: Seq<char>) -> Seq<DataRecord<V>>
    decreases rs.len(),
{
    if rs.len() == 0 {
        Seq::empty()
    } else {
        let r = with_category(rs.drop_last(), c);
        if rs.last().category@ == c {
            r.push(rs.last())
        } else {
            r
        }
    }
}

/// The record that the line `l` gives, when the value text is read as `v` and
/// `finite` tells whether `v` is finite; `None` when the line is passed over.
pub open spec fn record_on_line<V>(l: Seq<char>, v: Option<V>, finite: bool) -> Option<(u32, V, Seq<char>, Seq<char>)> {
    match line_fields(l) {
        None => None,
        Some((id, _text, c, t)) => match v {
            None => None,
            Some(x) => if c.len() > 0 && finite {
                Some((id, x, c, t))
            } else {
                None
            },
        },
    }
}

/// The view of a record.
pub open spec fn value_record_view<V>(r: DataRecord<V>) -> (u32, V, Seq<char>, Seq<char>) {
    (r.id, r.value, r.category@, r.timestamp@)
}

/// The view of a record, if there is one.
pub open spec fn opt_record_view<V>(r: Option<DataRecord<V>>) -> Option<(u32, V, Seq<char>, Seq<char>)> {
    match r {
        Some(rec) => Some(value_record_view(rec)),
        None => None,
    }
}

/// The views of records.
pub open spec fn value_record_views<V>(rs: Seq<DataRecord<V>>) -> Seq<(u32, V, Seq<char>, Seq<char>)> {
    Seq::new(rs.len(), |i: int| value_record_view(rs[i]))
}

/// A collection of records.
pub struct DataProcessor<V> {
    records: Vec<DataRecord<V>>,
}

impl<V> DataProcessor<V> {
    /// The records held.
    pub closed spec fn items(&self) -> Seq<DataRecord<V>> {
        self.records@
    }

    /// An empty collection.
    pub fn new() -> (p: DataProcessor<V>)
        ensures
            p.items() == Seq::<DataRecord<V>>::empty(),
    {
        DataProcessor { records: Vec::new() }
    }

    /// Adds a record at the end.
    pub fn push_record(&mut self, record: DataRecord<V>)
        ensures
            final(self).items() == old(self).items().push(record),
    {
        self.records.push(record);
    }

    /// Adds the valid records on a file's lines after its header and gives how
    /// many were added. A line is passed over unless it has four comma-separated
    /// fields, the first an identifier, the second a value that `read_value`
    /// reads, and, as `DataRecord::is_valid` checks, a category and a finite value.
    /// `lines` holds the lines as read, or the error met opening the file;
    /// records added before a read error stay.
    pub fn load_from_csv(
        &mut self,
        lines: Result<Vec<Result<String, String>>, String>,
        read_value: impl Fn(&str) -> Option<V>,
        is_finite: impl Fn(&V) -> bool,
    ) -> (r: Result<usize, String>)
        requires
            forall|s: &str| call_requires(read_value, (s,)),
            forall|v: &V| call_requires(is_finite, (v,)),
        ensures
            lines matches Err(e) ==> (r matches Err(m) && m@ == e@ && final(self).items() == old(self).items()),
            lines matches Ok(ls) ==> {
                let lv = line_views(ls@);
                let stop = first_error(lv, 0);
                // Each line before the first read error but the header gives a
                // record or none, depending on what the value functions gave for it.
                exists|found: Seq<Option<(u32, V, Seq<char>, Seq<char>)>>|
                    #![trigger somes(found)]
                    {
                        &&& found.len() == stop
                        &&& forall|i: int| 1 <= i < stop ==> #[trigger] line_gives(
                            read_value,
                            is_finite,
                            lv[i]->Ok_0,
                            found[i],
                        )
                        &&& final(self).items().take(old(self).items().len() as int) == old(self).items()
                        &&& value_record_views(final(self).items().skip(old(self).items().len() as int))
                            == somes(found)
                        &&& if stop < lv.len() {
                            r matches Err(m) && m@ == lv[stop]->Err_0
                        } else {
                            r matches Ok(n) && n == somes(found).len()
                        }
                    }
            },
    {
        let ls = match lines {
            Err(e) => return Err(e),
            Ok(ls) => ls,
        };
        let ghost lv = line_views(ls@);
        let ghost start = self.items();
        let ghost mut found: Seq<Option<(u32, V, Seq<char>, Seq<char>)>> = Seq::empty();
        let mut count: usize = 0;
        let mut i: usize = 0;
        assert(value_record_views(start.skip(start.len() as int)) =~= somes(found));
        assert(start.take(start.len() as int) =~= start);
        while i < ls.len()
            invariant
                i <= ls@.len(),
                lines matches Ok(x) && x@ == ls@,
                lv == line_views(ls@),
                forall|s: &str| call_requires(read_value, (s,)),
                forall|v: &V| call_requires(is_finite, (v,)),
                found.len() == i,
                first_error(lv, 0) == first_error(lv, i as int),
                forall|k: int| 0 <= k < i ==> lv[k] is Ok,
                forall|k: int| 1 <= k < i ==> #[trigger] line_gives(
                    read_value,
                    is_finite,
                    lv[k]->Ok_0,
                    found[k],
                ),
                start == old(self).items(),
                start.len() <= self.items().len(),
                self.items().take(start.len() as int) == start,
                value_record_views(self.items().skip(start.len() as int)) == somes(found),
                count == somes(found).len(),
                count <= i,
            decreases ls.len() - i,
        {
            let ghost before = self.items();
            match &ls[i] {
                Err(e) => {
                    assert(first_error(lv, i as int) == i);
                    let m = e.clone();
                    assert(m@ == lv[i as int]->Err_0);
                    assert(self.items() == before);
                    return Err(m);
                },
                Ok(line) => {
                    let got = if i > 0 {
                        self.read_line(line.as_str(), &read_value, &is_finite)
                    } else {
                        None
                    };
                    proof {
                        let old_found = found;
                        found = old_found.push(opt_record_view(got));
                        lemma_somes_push(old_found, opt_record_view(got));
                    }
                    match got {
                        Some(rec) => {
                            let ghost rv = value_record_view(rec);
                            self.records.push(rec);
                            assert(self.items() =~= before.push(rec));
                            assert(self.items().skip(start.len() as int) =~= before.skip(
                                start.len() as int,
                            ).push(rec));
                            assert(value_record_views(self.items().skip(start.len() as int))
                                =~= value_record_views(before.skip(start.len() as int)).push(rv));
                            assert(self.items().take(start.len() as int) =~= before.take(
                                start.len() as int,
                            ));
                            count += 1;
                        },
                        None => {},
                    }
                },
            }
            i += 1;
        }
        Ok(count)
    }

    /// The record on `line`, if it gives one.
    fn read_line(
        &self,
        line: &str,
        read_value: &impl Fn(&str) -> Option<V>,
        is_finite: &impl Fn(&V) -> bool,
    ) -> (r: Option<DataRecord<V>>)
        requires
            forall|s: &str| call_requires(*read_value, (s,)),
            forall|v: &V| call_requires(*is_finite, (v,)),
        ensures
            line_gives(
                *read_value,
                *is_finite,
                line@,
                opt_record_view(r),
            ),
    {
        let parts = split_strings(line, ',');
        if parts.len() != 4 {
            return None;
        }
        assert(string_views(parts@)[0] == parts@[0]@);
        assert(string_views(parts@)[1] == parts@[1]@);
        assert(string_views(parts@)[2] == parts@[2]@);
        assert(string_views(parts@)[3] == parts@[3]@);
        let id = match parse_unsigned_str(parts[0].as_str(), 4294967295) {
            None => return None,
            Some(v) => v as u32,
        };
        let text = parts[1].as_str();
        let read = read_value(text);
        assert(call_ensures(*read_value, (text,), read));
        let value = match read {
            None => {
                assert(line_gives(*read_value, *is_finite, line@, None));
                return None;
            },
            Some(v) => v,
        };
        let rec = DataRecord::new(id, value, parts[2].clone(), parts[3].clone());
        let valid = rec.is_valid(is_finite);
        if rec.category.as_str().is_empty() {
            assert(line_gives(*read_value, *is_finite, line@, None));
            return None;
        }
        assert(call_ensures(*is_finite, (&rec.value,), valid));
        if valid {
            assert(record_on_line(line@, read, valid) == Some(value_record_view(rec)));
            assert(line_gives(*read_value, *is_finite, line@, Some(value_record_view(rec))));
            Some(rec)
        } else {
            assert(record_on_line(line@, read, valid) is None);
            assert(line_gives(*read_value, *is_finite, line@, None));
            None
        }
    }

    /// The records whose category is `category`, in order.
    pub fn filter_by_category(&self, category: &str) -> (r: Vec<&DataRecord<V>>)
        ensures
            derefs_values(r@) == with_category(self.items(), category@),
    {
        let ghost s = self.items();
        let mut out: Vec<&DataRecord<V>> = Vec::new();
        let mut i: usize = 0;
        while i < self.records.len()
            invariant
                i <= s.len(),
                s == self.records@,
                derefs_values(out@) == with_category(s.take(i as int), category@),
            decreases self.records.len() - i,
        {
            assert(s.take(i + 1).drop_last() =~= s.take(i as int));
            let ghost before = derefs_values(out@);
            if str_eq(self.records[i].category.as_str(), category) {
                out.push(&self.records[i]);
                assert(derefs_values(out@) =~= before.push(s[i as int]));
            }
            i += 1;
        }
        assert(s.take(s.len() as int) =~= s);
        out
    }

    /// The records held.
    pub fn get_records(&self) -> (r: &[DataRecord<V>])
        ensures
            r@ == self.items(),
    {
        self.records.as_slice()
    }

    /// How many records are held.
    pub fn count_records(&self) -> (n: usize)
        ensures
            n == self.items().len(),
    {
        self.records.len()
    }

    /// Removes every record.
    pub fn clear(&mut self)
        ensures
            final(self).items() == Seq::<DataRecord<V>>::empty(),
    {
        self.records.clear();
    }
}

/// The records, dereferenced.
pub open spec fn derefs_values<V>(rs: Seq<&DataRecord<V>>) -> Seq<DataRecord<V>> {
    Seq::new(rs.len(), |i: int| *rs[i])
}

/// The line `l` gives the record `g` (or none, for `None`) for some results of the
/// value functions on it: `g` is what `record_on_line` makes of the line, a value
/// that `read_value` may give for its value text, and an answer that `is_finite`
/// may give for that value.
pub open spec fn line_gives<V, R, F>(read_value: R, is_finite: F, l: Seq<char>, g: Option<(u32, V, Seq<char>, Seq<char>)>) -> bool
    where R: Fn(&str) -> Option<V>, F: Fn(&V) -> bool,
{
    match line_fields(l) {
        None => g is None,
        Some((id, text, c, t)) => exists|s: &str, v: Option<V>|
            s@ == text && call_ensures(read_value, (s,), v) && match v {
                None => g is None,
                Some(x) => c.len() == 0 && g is None || c.len() > 0 && exists|fin: bool|
                    call_ensures(is_finite, (&x,), fin) && g == record_on_line(l, v, fin),
            },
    }
}

/// The position of the first read error in `lv` from `i` on, or its length.
pub open spec fn first_error(lv: Seq<Result<Seq<char>, Seq<char>>>, i: int) -> int
    decreases lv.len() - i,
{
    if i < 0 || i >= lv.len() {
        lv.len() as int
    } else if lv[i] is Err {
        i
    } else {
        first_error(lv, i + 1)
    }
}

/// The items of `s` that are present, in order.
pub open spec fn somes<T>(s: Seq<Option<T>>) -> Seq<T>
    decreases s.len(),
{
    if s.len() == 0 {
        Seq::empty()
    } else {
        match s.last() {
            Some(x) => somes(s.drop_last()).push(x),
            None => somes(s.drop_last()),
        }
    }
}

/// `somes` of a sequence with one more item.
pub proof fn lemma_somes_push<T>(s: Seq<Option<T>>, x: Option<T>)
    ensures
        somes(s.push(x)) == match x {
            Some(y) => somes(s).push(y),
            None => somes(s),
        },
{
    assert(s.push(x).drop_last() =~= s);
}

} // verus!
