//! Lists of texts: membership, dropping repeats and empty items, and mapping.
use vstd::prelude::*;
use crate::geth_batch::data_cleaner::{first_occurrences, without_value};
use crate::text::{string_views, str_eq};

verus! {

/// Whether one of the strings of `v` equals `x`.
pub fn holds_text(v: &Vec<String>, x: &str) -> (b: bool)
    ensures
        b == string_views(v@).contains(x@),
{
    let mut i: usize = 0;
    while i < v.len()
        invariant
            i <= v@.len(),
            forall|j: int| 0 <= j < i ==> v@[j]@ != x@,
        decreases v.len() - i,
    {
        if str_eq(v[i].as_str(), x) {
            assert(string_views(v@)[i as int] == x@);
            return true;
        }
        i += 1;
    }
    assert(!string_views(v@).contains(x@)) by {
        if string_views(v@).contains(x@) {
            let k = choose|k: int| 0 <= k < string_views(v@).len() && string_views(v@)[k] == x@;
            assert(v@[k]@ == x@);
        }
    }
    false
}

/// The strings of `v`, each kept only where it first appears.
pub fn first_texts(v: &Vec<String>) -> (r: Vec<String>)
    ensures
        string_views(r@) == first_occurrences(string_views(v@)),
{
    let ghost s = string_views(v@);
    let mut kept: Vec<String> = Vec::new();
    let mut i: usize = 0;
    while i < v.len()
        invariant
            i <= v@.len(),
            s == string_views(v@),
            string_views(kept@) == first_occurrences(s.take(i as int)),
        decreases v.len() - i,
    {
        assert(s.take(i + 1).drop_last() =~= s.take(i as int));
        assert(s.take(i + 1).last() == v@[i as int]@);
        let ghost before = kept@;
        if !holds_text(&kept, v[i].as_str()) {
            let item = v[i].clone();
            kept.push(item);
            assert(string_views(kept@) =~= string_views(before).push(v@[i as int]@));
        }
        i += 1;
    }
    assert(s.take(v@.len() as int) =~= s);
    kept
}

/// The strings of `v` other than the empty one, in order.
pub fn nonempty_texts(v: &Vec<String>) -> (r: Vec<String>)
    ensures
        string_views(r@) == without_value(string_views(v@), Seq::<char>::empty()),
{
    let ghost s = string_views(v@);
    let mut kept: Vec<String> = Vec::new();
    let mut i: usize = 0;
    while i < v.len()
        invariant
            i <= v@.len(),
            s == string_views(v@),
            string_views(kept@) == without_value(s.take(i as int), Seq::<char>::empty()),
        decreases v.len() - i,
    {
        assert(s.take(i + 1).drop_last() =~= s.take(i as int));
        assert(s.take(i + 1).last() == v@[i as int]@);
        let ghost before = kept@;
        if !v[i].as_str().is_empty() {
            let item = v[i].clone();
            kept.push(item);
            assert(string_views(kept@) =~= string_views(before).push(v@[i as int]@));
        } else {
            assert(v@[i as int]@ =~= Seq::<char>::empty());
        }
        i += 1;
    }
    assert(s.take(v@.len() as int) =~= s);
    kept
}

} // verus!
