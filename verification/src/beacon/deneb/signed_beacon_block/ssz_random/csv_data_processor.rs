//! A table read from comma-separated lines: a header line naming the columns,
//! then the rows that have as many fields as there are columns, every field
//! trimmed.
//!
//! The file is read outside; its lines (or the error met reading one) are handed
//! in here.
use vstd::prelude::*;
use crate::text::{string_views, trimmed_pieces, split_trimmed, str_eq};
use crate::infura_batch::csv_processor::{row_views, select};
use crate::beacon::deneb::signed_beacon_block::csv_processor::line_views;

verus! {

broadcast use vstd::string::group_string_axioms;

/// The rows of the lines `ls` from position `i` on, after `acc`: each line split
/// at commas and trimmed, kept when it has `n` fields; a read error stops it.
pub open spec fn table_rows(
    ls: Seq<Result<Seq<char>, Seq<char>>>,
    i: int,
    n: nat,
    acc: Seq<Seq<Seq<char>>>,
) -> Result<Seq<Seq<Seq<char>>>, Seq<char>>
    decreases ls.len() - i,
{
    if i < 0 || i >= ls.len() {
        Ok(acc)
    } else {
        match ls[i] {
            Err(e) => Err(e),
            Ok(l) => {
                let fields = trimmed_pieces(l, ',');
                if fields.len() == n {
                    table_rows(ls, i + 1, n, acc.push(fields))
                } else {
                    table_rows(ls, i + 1, n, acc)
                }
            },
        }
    }
}

/// What reading the lines `ls` gives: the column names and the rows, or an error.
pub open spec fn read_table(ls: Seq<Result<Seq<char>, Seq<char>>>) -> Result<
    (Seq<Seq<char>>, Seq<Seq<Seq<char>>>),
    Seq<char>,
> {
    if ls.len() == 0 {
        Err("Empty CSV file"@)
    } else {
        match ls[0] {
            Err(e) => Err(e),
            Ok(first) => {
                let headers = trimmed_pieces(first, ',');
                match table_rows(ls, 1, headers.len(), Seq::empty()) {
                    Err(e) => Err(e),
                    Ok(rows) => Ok((headers, rows)),
                }
            },
        }
    }
}

/// The position of the first column named `name`.
pub open spec fn column_index(headers: Seq<Seq<char>>, name: Seq<char>) -> Option<int>
    decreases headers.len(),
{
    if headers.len() == 0 {
        None
    } else {
        match column_index(headers.drop_last(), name) {
            Some(i) => Some(i),
            None => if headers.last() == name {
                Some(headers.len() - 1)
            } else {
                None
            },
        }
    }
}

/// A table of text fields.
pub struct CsvProcessor {
    headers: Vec<String>,
    records: Vec<Vec<String>>,
}

/// A copy of the strings of `v`.
fn copy_texts(v: &Vec<String>) -> (r: Vec<String>)
    ensures
        r@ == v@,
{
    let mut out: Vec<String> = Vec::new();
    let mut i: usize = 0;
    while i < v.len()
        invariant
            i <= v@.len(),
            out@ == v@.take(i as int),
        decreases v.len() - i,
    {
        out.push(v[i].clone());
        i += 1;
        assert(out@ =~= v@.take(i as int));
    }
    assert(v@.take(v@.len() as int) =~= v@);
    out
}

impl CsvProcessor {
    /// The column names.
    pub closed spec fn header_names(&self) -> Seq<Seq<char>> {
        string_views(self.headers@)
    }

    /// The rows.
    pub closed spec fn rows(&self) -> Seq<Seq<Seq<char>>> {
        row_views(self.records@)
    }

    /// The rows are the views of the stored rows.
    pub proof fn lemma_rows(&self)
        ensures
            self.rows() == row_views(self.row_vecs()),
    {
    }

    /// The rows, as stored.
    pub closed spec fn row_vecs(&self) -> Seq<Vec<String>> {
        self.records@
    }

    /// Every row has one field per column.
    pub closed spec fn wf(&self) -> bool {
        forall|i: int| 0 <= i < self.records@.len() ==> #[trigger] self.records@[i]@.len() == self.headers@.len()
    }

    /// The table in `lines`: its first line names the columns, and the other lines
    /// with one field per column are its rows. `lines` holds the lines as read,
    /// or the error met opening the file.
    pub fn from_file(lines: Result<Vec<Result<String, String>>, String>) -> (r: Result<CsvProcessor, String>)
        ensures
            match lines {
                Err(e) => r matches Err(m) && m@ == e@,
                Ok(ls) => match read_table(line_views(ls@)) {
                    Ok((h, rows)) => r matches Ok(p) && p.wf() && p.header_names() == h && p.rows() == rows,
                    Err(e) => r matches Err(m) && m@ == e,
                },
            },
    {
        let ls = match lines {
            Err(e) => return Err(e),
            Ok(ls) => ls,
        };
        let ghost lv = line_views(ls@);
        if ls.len() == 0 {
            return Err("Empty CSV file".to_string());
        }
        let headers = match &ls[0] {
            Err(e) => return Err(e.clone()),
            Ok(first) => split_trimmed(first.as_str(), ','),
        };
        let ghost n = headers@.len();
        let mut records: Vec<Vec<String>> = Vec::new();
        let mut i: usize = 1;
        assert(row_views(records@) =~= Seq::<Seq<Seq<char>>>::empty());
        while i < ls.len()
            invariant
                1 <= i <= ls@.len(),
                lines matches Ok(x) && x@ == ls@,
                lv == line_views(ls@),
                n == headers@.len(),
                string_views(headers@).len() == n,
                lv.len() == ls@.len(),
                lv[0] matches Ok(first) && trimmed_pieces(first, ',') == string_views(headers@),
                table_rows(lv, 1, n, Seq::empty()) == table_rows(lv, i as int, n, row_views(records@)),
                forall|j: int| 0 <= j < records@.len() ==> #[trigger] records@[j]@.len() == n,
            decreases ls.len() - i,
        {
            match &ls[i] {
                Err(e) => {
                    return Err(e.clone());
                },
                Ok(line) => {
                    let fields = split_trimmed(line.as_str(), ',');
                    if fields.len() == headers.len() {
                        let ghost before = row_views(records@);
                        let ghost fv = string_views(fields@);
                        records.push(fields);
                        assert(row_views(records@) =~= before.push(fv));
                    }
                },
            }
            i += 1;
        }
        Ok(CsvProcessor { headers, records })
    }

    /// The fields of the column named `column_name`, one per row, or `None` when
    /// no column has that name.
    pub fn get_column(&self, column_name: &str) -> (r: Option<Vec<String>>)
        requires
            self.wf(),
        ensures
            match column_index(self.header_names(), column_name@) {
                None => r is None,
                Some(k) => r matches Some(v) && string_views(v@) == Seq::new(
                    self.rows().len(),
                    |i: int| self.rows()[i][k],
                ),
            },
    {
        let ghost h = self.header_names();
        let mut k: usize = 0;
        while k < self.headers.len() && !str_eq(self.headers[k].as_str(), column_name)
            invariant
                k <= self.headers@.len(),
                h == string_views(self.headers@),
                column_index(h.take(k as int), column_name@) is None,
            decreases self.headers.len() - k,
        {
            assert(h.take(k + 1).drop_last() =~= h.take(k as int));
            k += 1;
        }
        if k == self.headers.len() {
            assert(h.take(k as int) =~= h);
            return None;
        }
        proof {
            assert(h.take(k + 1).drop_last() =~= h.take(k as int));
            lemma_column_index_prefix(h, column_name@, k + 1);
        }
        let mut out: Vec<String> = Vec::new();
        let mut i: usize = 0;
        while i < self.records.len()
            invariant
                self.wf(),
                k < self.headers@.len(),
                i <= self.records@.len(),
                out@.len() == i,
                forall|j: int| 0 <= j < i ==> out@[j]@ == self.rows()[j][k as int],
            decreases self.records.len() - i,
        {
            assert(self.records@[i as int]@.len() == self.headers@.len());
            out.push(self.records[i][k].clone());
            i += 1;
        }
        assert(string_views(out@) =~= Seq::new(self.rows().len(), |i: int| self.rows()[i][k as int]));
        Some(out)
    }

    /// The rows that `predicate` accepts, in order.
    pub fn filter_records(&self, predicate: impl Fn(&Vec<String>) -> bool) -> (r: Vec<Vec<String>>)
        requires
            forall|row: &Vec<String>| call_requires(predicate, (row,)),
        ensures
            exists|keep: Seq<bool>|
                {
                    &&& keep.len() == self.row_vecs().len()
                    &&& forall|i: int|
                        0 <= i < keep.len() ==> call_ensures(
                            predicate,
                            (&#[trigger] self.row_vecs()[i],),
                            keep[i],
                        )
                    &&& row_views(r@) == select(self.rows(), keep)
                },
    {
        let ghost rows = self.records@;
        let ghost rv = self.rows();
        let ghost mut keep: Seq<bool> = Seq::empty();
        let mut out: Vec<Vec<String>> = Vec::new();
        let mut i: usize = 0;
        while i < self.records.len()
            invariant
                i <= rows.len(),
                rows == self.records@,
                keep.len() == i,
                forall|row: &Vec<String>| call_requires(predicate, (row,)),
                forall|k: int| 0 <= k < i ==> call_ensures(predicate, (&#[trigger] rows[k],), keep[k]),
                rv == row_views(rows),
                row_views(out@) == select(rv.take(i as int), keep),
            decreases self.records.len() - i,
        {
            let accepted = predicate(&self.records[i]);
            let ghost old_keep = keep;
            proof {
                keep = keep.push(accepted);
                assert(rv.take(i + 1).drop_last() =~= rv.take(i as int));
                assert(keep.drop_last() =~= old_keep);
                assert(rv.take(i + 1).last() == string_views(rows[i as int]@));
            }
            let ghost before = row_views(out@);
            if accepted {
                let row = copy_texts(&self.records[i]);
                out.push(row);
                assert(row_views(out@) =~= before.push(string_views(rows[i as int]@)));
            }
            i += 1;
        }
        assert(rv.take(rv.len() as int) =~= rv);
        out
    }

    /// How many rows the table has.
    pub fn record_count(&self) -> (n: usize)
        ensures
            n == self.rows().len(),
    {
        self.records.len()
    }

    /// How many columns the table has.
    pub fn header_count(&self) -> (n: usize)
        ensures
            n == self.header_names().len(),
    {
        self.headers.len()
    }
}

/// A first match in a prefix is the first match of the whole.
proof fn lemma_column_index_prefix(h: Seq<Seq<char>>, name: Seq<char>, k: int)
    requires
        0 <= k <= h.len(),
        column_index(h.take(k), name) is Some,
    ensures
        column_index(h, name) == column_index(h.take(k), name),
    decreases h.len() - k,
{
    if k < h.len() {
        assert(h.take(k + 1).drop_last() =~= h.take(k));
        lemma_column_index_prefix(h, name, k + 1);
    } else {
        assert(h.take(k) =~= h);
    }
}

} // verus!
