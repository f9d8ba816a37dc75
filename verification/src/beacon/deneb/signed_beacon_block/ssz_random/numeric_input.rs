//! Numbers given as text: one per line of a file, or comma-separated in one
//! input line. Each is kept as its numeral, checked to read as a floating-point
//! number; the arithmetic on them is done by the caller.
use vstd::prelude::*;
use crate::text::{string_views, trim, trim_str, trimmed_pieces, split_trimmed, chars_of};
use crate::float_syntax::{float_syntax, float_syntax_ok};
use crate::beacon::deneb::signed_beacon_block::csv_processor::line_views;

verus! {

/// The trimmed lines of `ls` from `i` on that read as numbers, after `acc`; a
/// read error stops it.
pub open spec fn numeric_lines_from(ls: Seq<Result<Seq<char>, Seq<char>>>, i: int, acc: Seq<Seq<char>>) -> Result<
    Seq<Seq<char>>,
    Seq<char>,
>
    decreases ls.len() - i,
{
    if i < 0 || i >= ls.len() {
        Ok(acc)
    } else {
        match ls[i] {
            Err(e) => Err(e),
            Ok(l) => if float_syntax(trim(l)) {
                numeric_lines_from(ls, i + 1, acc.push(trim(l)))
            } else {
                numeric_lines_from(ls, i + 1, acc)
            },
        }
    }
}

/// The numerals of the lines of a file that hold one number each (trimmed);
/// other lines are passed over. `lines` holds the lines as read, or the error
/// met opening the file.
pub fn numeric_lines(lines: Result<Vec<Result<String, String>>, String>) -> (r: Result<Vec<String>, String>)
    ensures
        match lines {
            Err(e) => r matches Err(m) && m@ == e@,
            Ok(ls) => match numeric_lines_from(line_views(ls@), 0, Seq::empty()) {
                Ok(ns) => r matches Ok(v) && string_views(v@) == ns,
                Err(e) => r matches Err(m) && m@ == e,
            },
        },
{
    let ls = match lines {
        Err(e) => return Err(e),
        Ok(ls) => ls,
    };
    let ghost lv = line_views(ls@);
    let mut out: Vec<String> = Vec::new();
    let mut i: usize = 0;
    assert(string_views(out@) =~= Seq::<Seq<char>>::empty());
    while i < ls.len()
        invariant
            i <= ls@.len(),
            lines matches Ok(x) && x@ == ls@,
            lv == line_views(ls@),
            numeric_lines_from(lv, 0, Seq::empty()) == numeric_lines_from(lv, i as int, string_views(out@)),
        decreases ls.len() - i,
    {
        match &ls[i] {
            Err(e) => {
                return Err(e.clone());
            },
            Ok(line) => {
                let t = trim_str(line.as_str());
                let cs = chars_of(t.as_str());
                if float_syntax_ok(cs.as_slice()) {
                    let ghost before = string_views(out@);
                    let ghost tv = t@;
                    out.push(t);
                    assert(string_views(out@) =~= before.push(tv));
                }
            },
        }
        i += 1;
    }
    Ok(out)
}

/// The numerals of `input` split at commas and trimmed, when every piece reads
/// as a number; otherwise an error.
pub fn validate_input(input: &str) -> (r: Result<Vec<String>, String>)
    ensures
        (forall|k: int| 0 <= k < trimmed_pieces(input@, ',').len() ==> float_syntax(
            #[trigger] trimmed_pieces(input@, ',')[k],
        )) ==> (r matches Ok(v) && string_views(v@) == trimmed_pieces(input@, ',')),
        !(forall|k: int| 0 <= k < trimmed_pieces(input@, ',').len() ==> float_syntax(
            #[trigger] trimmed_pieces(input@, ',')[k],
        )) ==> (r matches Err(m) && m@ == "Failed to parse input as numbers"@),
{
    let pieces = split_trimmed(input, ',');
    let ghost p = trimmed_pieces(input@, ',');
    let mut i: usize = 0;
    while i < pieces.len()
        invariant
            i <= pieces@.len(),
            string_views(pieces@) == p,
            p == trimmed_pieces(input@, ','),
            forall|k: int| 0 <= k < i ==> float_syntax(#[trigger] p[k]),
        decreases pieces.len() - i,
    {
        assert(p[i as int] == pieces@[i as int]@);
        let cs = chars_of(pieces[i].as_str());
        if !float_syntax_ok(cs.as_slice()) {
            assert(!float_syntax(trimmed_pieces(input@, ',')[i as int]));
            return Err("Failed to parse input as numbers".to_string());
        }
        i += 1;
    }
    Ok(pieces)
}

} // verus!
