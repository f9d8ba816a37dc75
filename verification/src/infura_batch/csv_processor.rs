//! Picks the rows of delimited text that a predicate accepts.
//!
//! The file is read outside; its text is handed in here.
use vstd::prelude::*;
use crate::vec_util::reversed;
use crate::text::{lines, trim, split_char, lines_of, split_chars, trim_chars, string_from_chars, views, string_views};

verus! {

broadcast use vstd::string::group_string_axioms;

/// The fields of the line `line`: the pieces between delimiters, trimmed.
pub open spec fn row_fields(line: Seq<char>, delimiter: char) -> Seq<Seq<char>> {
    let p = split_char(line, delimiter);
    Seq::new(p.len(), |i: int| trim(p[i]))
}

/// The data lines of `content`: all its lines, but the first when there is a header.
pub open spec fn data_lines(content: Seq<char>, has_header: bool) -> Seq<Seq<char>> {
    let ls = lines(content);
    if has_header && ls.len() > 0 {
        ls.drop_first()
    } else {
        ls
    }
}

/// The rows of `content`, each as its fields.
pub open spec fn text_rows(content: Seq<char>, delimiter: char, has_header: bool) -> Seq<
    Seq<Seq<char>>,
> {
    let ls = data_lines(content, has_header);
    Seq::new(ls.len(), |i: int| row_fields(ls[i], delimiter))
}

/// The fields of each row of `rows`.
pub open spec fn row_views(rows: Seq<Vec<String>>) -> Seq<Seq<Seq<char>>> {
    Seq::new(rows.len(), |i: int| string_views(rows[i]@))
}

/// The items of `s` whose flag in `keep` is set, in order.
pub open spec fn select<T>(s: Seq<T>, keep: Seq<bool>) -> Seq<T>
    decreases s.len(),
{
    if s.len() == 0 || keep.len() != s.len() {
        Seq::empty()
    } else {
        let r = select(s.drop_last(), keep.drop_last());
        if keep.last() {
            r.push(s.last())
        } else {
            r
        }
    }
}

/// Reads delimited rows and keeps those a predicate accepts.
pub struct CsvFilter {
    delimiter: char,
    has_header: bool,
}

impl CsvFilter {
    /// The delimiter between fields.
    pub closed spec fn delimiter(&self) -> char {
        self.delimiter
    }

    /// Whether the first line is a header.
    pub closed spec fn has_header(&self) -> bool {
        self.has_header
    }

    /// A filter for rows split at `delimiter`, skipping a first header line when
    /// `has_header` is set.
    pub fn new(delimiter: char, has_header: bool) -> (f: CsvFilter)
        ensures
            f.delimiter() == delimiter,
            f.has_header() == has_header,
    {
        CsvFilter { delimiter, has_header }
    }

    /// The rows of `content`, each as its trimmed fields.
    pub fn rows(&self, content: &str) -> (r: Vec<Vec<String>>)
        ensures
            row_views(r@) == text_rows(content@, self.delimiter(), self.has_header()),
    {
        let ls = lines_of(content);
        let start: usize = if self.has_header && ls.len() > 0 {
            1
        } else {
            0
        };
        let ghost dl = data_lines(content@, self.has_header);
        assert(dl =~= views(ls@).skip(start as int));
        let mut out: Vec<Vec<String>> = Vec::new();
        let mut i = start;
        while i < ls.len()
            invariant
                start <= i <= ls@.len(),
                views(ls@) == lines(content@),
                start == 1 ==> self.has_header && ls@.len() > 0,
                start == 0 ==> !(self.has_header && ls@.len() > 0),
                dl == data_lines(content@, self.has_header),
                dl == views(ls@).skip(start as int),
                row_views(out@) == text_rows(content@, self.delimiter, self.has_header).take(
                    i - start,
                ),
            decreases ls.len() - i,
        {
            let pieces = split_chars(ls[i].as_slice(), self.delimiter);
            let mut fields: Vec<String> = Vec::new();
            let mut j: usize = 0;
            while j < pieces.len()
                invariant
                    j <= pieces@.len(),
                    views(pieces@) == split_char(ls@[i as int]@, self.delimiter),
                    string_views(fields@) == row_fields(ls@[i as int]@, self.delimiter).take(
                        j as int,
                    ),
                decreases pieces.len() - j,
            {
                let t = trim_chars(pieces[j].as_slice());
                let ghost before = string_views(fields@);
                fields.push(string_from_chars(t.as_slice()));
                assert(string_views(fields@) =~= before.push(trim(pieces@[j as int]@)));
                j += 1;
                assert(string_views(fields@) =~= row_fields(ls@[i as int]@, self.delimiter).take(
                    j as int,
                ));
            }
            assert(row_fields(ls@[i as int]@, self.delimiter).take(pieces@.len() as int)
                =~= row_fields(ls@[i as int]@, self.delimiter));
            let ghost before = row_views(out@);
            out.push(fields);
            assert(dl[i - start] == ls@[i as int]@);
            assert(row_views(out@) =~= before.push(row_fields(dl[i - start], self.delimiter)));
            i += 1;
            assert(row_views(out@) =~= text_rows(content@, self.delimiter, self.has_header).take(
                i - start,
            ));
        }
        assert(text_rows(content@, self.delimiter, self.has_header).take(i - start)
            =~= text_rows(content@, self.delimiter, self.has_header));
        out
    }

    /// The rows of `content` that `predicate` accepts, in order.
    pub fn filter_rows(&self, content: &str, predicate: impl Fn(&Vec<String>) -> bool) -> (r: Vec<
        Vec<String>,
    >)
        requires
            forall|row: &Vec<String>| call_requires(predicate, (row,)),
        ensures
            exists|all: Seq<Vec<String>>, keep: Seq<bool>|
                {
                    &&& row_views(all) == text_rows(content@, self.delimiter(), self.has_header())
                    &&& keep.len() == all.len()
                    &&& forall|i: int|
                        0 <= i < all.len() ==> call_ensures(predicate, (&#[trigger] all[i],), keep[i])
                    &&& r@ == select(all, keep)
                },
    {
        let all = self.rows(content);
        let ghost rows = all@;
        let ghost mut keep: Seq<bool> = Seq::empty();
        let mut filtered: Vec<Vec<String>> = Vec::new();
        let mut rest = reversed(all);
        while rest.len() > 0
            invariant
                rest@.len() <= rows.len(),
                forall|j: int| 0 <= j < rest@.len() ==> rest@[j] == rows[rows.len() - 1 - j],
                keep.len() == rows.len() - rest@.len(),
                forall|row: &Vec<String>| call_requires(predicate, (row,)),
                forall|k: int|
                    0 <= k < keep.len() ==> call_ensures(predicate, (&#[trigger] rows[k],), keep[k]),
                filtered@ == select(rows.take(keep.len() as int), keep),
            decreases rest.len(),
        {
            let ghost i = keep.len() as int;
            let row = rest.pop().unwrap();
            assert(row == rows[i]);
            let accepted = predicate(&row);
            let ghost old_keep = keep;
            proof {
                keep = keep.push(accepted);
                assert(rows.take(i + 1).drop_last() =~= rows.take(i));
                assert(keep.drop_last() =~= old_keep);
                assert(rows.take(i + 1).last() == row);
            }
            if accepted {
                filtered.push(row);
            }
        }
        assert(rows.take(rows.len() as int) =~= rows);
        filtered
    }

    /// How many rows of `content` `predicate` accepts.
    pub fn count_matching_rows(&self, content: &str, predicate: impl Fn(&Vec<String>) -> bool) -> (n:
        usize)
        requires
            forall|row: &Vec<String>| call_requires(predicate, (row,)),
        ensures
            exists|all: Seq<Vec<String>>, keep: Seq<bool>|
                {
                    &&& row_views(all) == text_rows(content@, self.delimiter(), self.has_header())
                    &&& keep.len() == all.len()
                    &&& forall|i: int|
                        0 <= i < all.len() ==> call_ensures(predicate, (&#[trigger] all[i],), keep[i])
                    &&& n == select(all, keep).len()
                },
    {
        let filtered = self.filter_rows(content, predicate);
        filtered.len()
    }
}

} // verus!
