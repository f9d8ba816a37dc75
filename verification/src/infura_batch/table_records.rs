//! Records read from comma-separated lines as maps from column name to field,
//! counted, filtered and summarized by column.
//!
//! The file is read outside; its lines (or the error met reading one) are handed
//! in here. Each record is kept as its (name, field) pairs in column order, a
//! repeated column name keeping the last field given for it.
use vstd::prelude::*;
use crate::text::{string_views, trimmed_pieces, split_trimmed, pair_views, set_pair, str_eq};
use crate::json_value::{lookup, obj_insert, lemma_key_index};
use crate::geth_batch::data_cleaner::first_occurrences;
use crate::text_list::first_texts;
use crate::infura_batch::csv_processor::select;
use crate::beacon::deneb::signed_beacon_block::csv_processor::line_views;

verus! {

broadcast use vstd::string::group_string_axioms;

/// The record made of `values` under the column names `headers`: each name set
/// to its field in turn.
pub open spec fn record_of(headers: Seq<Seq<char>>, values: Seq<Seq<char>>) -> Seq<(Seq<char>, Seq<char>)>
    decreases headers.len(),
{
    if headers.len() == 0 {
        Seq::empty()
    } else {
        let n = headers.len() - 1;
        obj_insert(record_of(headers.drop_last(), values), headers[n], values[n])
    }
}

/// The records of the lines `ls` from position `i` on, after `acc`: each line
/// split at commas and trimmed, kept when it has one field per column; a read
/// error stops it.
pub open spec fn map_records_from(
    ls: Seq<Result<Seq<char>, Seq<char>>>,
    headers: Seq<Seq<char>>,
    i: int,
    acc: Seq<Seq<(Seq<char>, Seq<char>)>>,
) -> (Seq<Seq<(Seq<char>, Seq<char>)>>, Option<Seq<char>>)
    decreases ls.len() - i,
{
    if i < 0 || i >= ls.len() {
        (acc, None)
    } else {
        match ls[i] {
            Err(e) => (acc, Some(e)),
            Ok(l) => {
                let values = trimmed_pieces(l, ',');
                if values.len() == headers.len() {
                    map_records_from(ls, headers, i + 1, acc.push(record_of(headers, values)))
                } else {
                    map_records_from(ls, headers, i + 1, acc)
                }
            },
        }
    }
}

/// The records read from the lines `ls` and the read error that stopped it, if
/// any: the first line names the columns.
pub open spec fn read_map_records(ls: Seq<Result<Seq<char>, Seq<char>>>) -> (Seq<Seq<(Seq<char>, Seq<char>)>>, Option<Seq<char>>) {
    if ls.len() == 0 {
        (Seq::empty(), None)
    } else {
        match ls[0] {
            Err(e) => (Seq::empty(), Some(e)),
            Ok(first) => map_records_from(ls, trimmed_pieces(first, ','), 1, Seq::empty()),
        }
    }
}

/// The fields of column `c` of the records of `rs` that have it, in order.
pub open spec fn column_values(rs: Seq<Seq<(Seq<char>, Seq<char>)>>, c: Seq<char>) -> Seq<Seq<char>>
    decreases rs.len(),
{
    if rs.len() == 0 {
        Seq::empty()
    } else {
        let r = column_values(rs.drop_last(), c);
        match lookup(rs.last(), c) {
            Some(v) => r.push(v),
            None => r,
        }
    }
}

/// The views of records.
pub open spec fn map_views(rs: Seq<Vec<(String, String)>>) -> Seq<Seq<(Seq<char>, Seq<char>)>> {
    Seq::new(rs.len(), |i: int| pair_views(rs[i]@))
}

/// Records kept as (column name, field) pairs.
pub struct DataProcessor {
    records: Vec<Vec<(String, String)>>,
}

/// The record of `values` under `headers`.
fn build_record(headers: &Vec<String>, values: &Vec<String>) -> (r: Vec<(String, String)>)
    requires
        headers@.len() == values@.len(),
    ensures
        pair_views(r@) == record_of(string_views(headers@), string_views(values@)),
{
    let ghost h = string_views(headers@);
    let ghost v = string_views(values@);
    let mut rec: Vec<(String, String)> = Vec::new();
    let mut j: usize = 0;
    assert(pair_views(rec@) =~= record_of(h.take(0), v));
    while j < headers.len()
        invariant
            j <= headers@.len(),
            headers@.len() == values@.len(),
            h == string_views(headers@),
            v == string_views(values@),
            pair_views(rec@) == record_of(h.take(j as int), v),
        decreases headers.len() - j,
    {
        assert(h.take(j + 1).drop_last() =~= h.take(j as int));
        assert(h.take(j + 1)[j as int] == headers@[j as int]@);
        assert(v[j as int] == values@[j as int]@);
        set_pair(&mut rec, headers[j].clone(), values[j].clone());
        j += 1;
    }
    assert(h.take(headers@.len() as int) =~= h);
    rec
}

/// A copy of the pairs of `v`.
fn copy_pairs(v: &Vec<(String, String)>) -> (r: Vec<(String, String)>)
    ensures
        pair_views(r@) == pair_views(v@),
{
    let mut out: Vec<(String, String)> = Vec::new();
    let mut i: usize = 0;
    while i < v.len()
        invariant
            i <= v@.len(),
            pair_views(out@) == pair_views(v@).take(i as int),
        decreases v.len() - i,
    {
        let ghost before = pair_views(out@);
        out.push((v[i].0.clone(), v[i].1.clone()));
        assert(pair_views(out@) =~= before.push(pair_views(v@)[i as int]));
        assert(pair_views(v@).take(i + 1) =~= pair_views(v@).take(i as int).push(pair_views(v@)[i as int]));
        i += 1;
    }
    assert(pair_views(v@).take(v@.len() as int) =~= pair_views(v@));
    out
}

/// The field of column `k` in the pairs `v`, if there is one.
fn field_of<'a>(v: &'a Vec<(String, String)>, k: &str) -> (r: Option<&'a String>)
    ensures
        match lookup(pair_views(v@), k@) {
            None => r is None,
            Some(x) => r matches Some(s) && s@ == x,
        },
{
    let ghost m = pair_views(v@);
    let mut i: usize = 0;
    while i < v.len() && !str_eq(v[i].0.as_str(), k)
        invariant
            i <= v@.len(),
            m == pair_views(v@),
            forall|j: int| 0 <= j < i ==> m[j].0 != k@,
        decreases v.len() - i,
    {
        i += 1;
    }
    proof {
        lemma_key_index(m, k@, i as int);
    }
    if i < v.len() {
        Some(&v[i].1)
    } else {
        None
    }
}

impl DataProcessor {
    /// The records held.
    pub closed spec fn items(&self) -> Seq<Seq<(Seq<char>, Seq<char>)>> {
        map_views(self.records@)
    }

    /// The records held, as stored.
    pub closed spec fn record_vecs(&self) -> Seq<Vec<(String, String)>> {
        self.records@
    }

    /// The records are the views of the stored records.
    pub proof fn lemma_items(&self)
        ensures
            self.items() == map_views(self.record_vecs()),
    {
    }

    /// No records.
    pub fn new() -> (p: DataProcessor)
        ensures
            p.items() == Seq::<Seq<(Seq<char>, Seq<char>)>>::empty(),
    {
        let p = DataProcessor { records: Vec::new() };
        assert(p.items() =~= Seq::<Seq<(Seq<char>, Seq<char>)>>::empty());
        p
    }

    /// Adds the records of a file: its first line names the columns and each
    /// other line with one field per column is a record. `lines` holds the lines
    /// as read, or the error met opening the file; records added before a read
    /// error stay.
    pub fn load_csv(&mut self, lines: Result<Vec<Result<String, String>>, String>) -> (r: Result<(), String>)
        ensures
            lines matches Err(e) ==> (r matches Err(m) && m@ == e@ && final(self).items() == old(self).items()),
            lines matches Ok(ls) ==> ({
                let (rs, err) = read_map_records(line_views(ls@));
                &&& final(self).items() == old(self).items() + rs
                &&& match err {
                    None => r is Ok,
                    Some(e) => r matches Err(m) && m@ == e,
                }
            }),
    {
        let ls = match lines {
            Err(e) => return Err(e),
            Ok(ls) => ls,
        };
        let ghost lv = line_views(ls@);
        let ghost start = self.items();
        if ls.len() == 0 {
            assert(start + Seq::<Seq<(Seq<char>, Seq<char>)>>::empty() =~= start);
            return Ok(());
        }
        let headers = match &ls[0] {
            Err(e) => {
                assert(start + Seq::<Seq<(Seq<char>, Seq<char>)>>::empty() =~= start);
                return Err(e.clone());
            },
            Ok(first) => split_trimmed(first.as_str(), ','),
        };
        let ghost h = string_views(headers@);
        let mut i: usize = 1;
        assert(start.skip(start.len() as int) =~= Seq::<Seq<(Seq<char>, Seq<char>)>>::empty());
        while i < ls.len()
            invariant
                1 <= i <= ls@.len(),
                lines matches Ok(x) && x@ == ls@,
                lv == line_views(ls@),
                lv[0] matches Ok(first) && trimmed_pieces(first, ',') == h,
                h == string_views(headers@),
                start == old(self).items(),
                start.len() <= self.items().len(),
                self.items().take(start.len() as int) == start,
                map_records_from(lv, h, 1, Seq::empty()) == map_records_from(
                    lv,
                    h,
                    i as int,
                    self.items().skip(start.len() as int),
                ),
            decreases ls.len() - i,
        {
            let ghost before = self.items();
            match &ls[i] {
                Err(e) => {
                    assert(self.items() =~= start + self.items().skip(start.len() as int));
                    return Err(e.clone());
                },
                Ok(line) => {
                    let values = split_trimmed(line.as_str(), ',');
                    if values.len() == headers.len() {
                        let rec = build_record(&headers, &values);
                        let ghost rv = pair_views(rec@);
                        self.records.push(rec);
                        assert(self.items() =~= before.push(rv));
                        assert(self.items().skip(start.len() as int) =~= before.skip(
                            start.len() as int,
                        ).push(rv));
                        assert(self.items().take(start.len() as int) =~= before.take(
                            start.len() as int,
                        ));
                    }
                },
            }
            i += 1;
        }
        assert(self.items() =~= start + self.items().skip(start.len() as int));
        Ok(())
    }

    /// How many different fields the column named `column_name` holds over the
    /// records that have it.
    pub fn count_unique_values(&self, column_name: &str) -> (n: usize)
        ensures
            n == first_occurrences(column_values(self.items(), column_name@)).len(),
    {
        let ghost s = self.items();
        let mut vals: Vec<String> = Vec::new();
        let mut i: usize = 0;
        while i < self.records.len()
            invariant
                i <= self.records@.len(),
                s == map_views(self.records@),
                string_views(vals@) == column_values(s.take(i as int), column_name@),
            decreases self.records.len() - i,
        {
            assert(s.take(i + 1).drop_last() =~= s.take(i as int));
            assert(s.take(i + 1).last() == pair_views(self.records@[i as int]@));
            let ghost before = string_views(vals@);
            match field_of(&self.records[i], column_name) {
                Some(v) => {
                    vals.push(v.clone());
                    assert(string_views(vals@) =~= before.push(v@));
                },
                None => {},
            }
            i += 1;
        }
        assert(s.take(self.records@.len() as int) =~= s);
        let unique = first_texts(&vals);
        unique.len()
    }

    /// Copies of the records that `predicate` accepts, in order.
    pub fn filter_records(&self, predicate: impl Fn(&Vec<(String, String)>) -> bool) -> (r: Vec<
        Vec<(String, String)>,
    >)
        requires
            forall|rec: &Vec<(String, String)>| call_requires(predicate, (rec,)),
        ensures
            exists|keep: Seq<bool>|
                {
                    &&& keep.len() == self.record_vecs().len()
                    &&& forall|i: int|
                        0 <= i < keep.len() ==> call_ensures(
                            predicate,
                            (&#[trigger] self.record_vecs()[i],),
                            keep[i],
                        )
                    &&& map_views(r@) == select(self.items(), keep)
                },
    {
        let ghost rows = self.records@;
        let ghost rv = self.items();
        let ghost mut keep: Seq<bool> = Seq::empty();
        let mut out: Vec<Vec<(String, String)>> = Vec::new();
        let mut i: usize = 0;
        while i < self.records.len()
            invariant
                i <= rows.len(),
                rows == self.records@,
                rv == map_views(rows),
                keep.len() == i,
                forall|rec: &Vec<(String, String)>| call_requires(predicate, (rec,)),
                forall|k: int| 0 <= k < i ==> call_ensures(predicate, (&#[trigger] rows[k],), keep[k]),
                map_views(out@) == select(rv.take(i as int), keep),
            decreases self.records.len() - i,
        {
            let accepted = predicate(&self.records[i]);
            let ghost old_keep = keep;
            proof {
                keep = keep.push(accepted);
                assert(rv.take(i + 1).drop_last() =~= rv.take(i as int));
                assert(keep.drop_last() =~= old_keep);
                assert(rv.take(i + 1).last() == pair_views(rows[i as int]@));
            }
            let ghost before = map_views(out@);
            if accepted {
                let rec = copy_pairs(&self.records[i]);
                out.push(rec);
                assert(map_views(out@) =~= before.push(pair_views(rows[i as int]@)));
            }
            i += 1;
        }
        assert(rv.take(rv.len() as int) =~= rv);
        out
    }

    /// How many records are held.
    pub fn get_record_count(&self) -> (n: usize)
        ensures
            n == self.items().len(),
    {
        self.records.len()
    }

    /// The column names of the first record, in column order; none when there
    /// are no records.
    pub fn get_column_names(&self) -> (r: Vec<String>)
        ensures
            self.items().len() == 0 ==> r@.len() == 0,
            self.items().len() > 0 ==> string_views(r@) == Seq::new(
                self.items()[0].len(),
                |i: int| self.items()[0][i].0,
            ),
    {
        let mut out: Vec<String> = Vec::new();
        if self.records.len() == 0 {
            return out;
        }
        let first = &self.records[0];
        let mut i: usize = 0;
        while i < first.len()
            invariant
                i <= first@.len(),
                out@.len() == i,
                forall|j: int| 0 <= j < i ==> out@[j]@ == first@[j].0@,
            decreases first.len() - i,
        {
            out.push(first[i].0.clone());
            i += 1;
        }
        assert(string_views(out@) =~= Seq::new(self.items()[0].len(), |i: int| self.items()[0][i].0));
        out
    }
}

} // verus!
