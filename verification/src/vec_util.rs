//! Moving the items of vectors around without copying them.
use vstd::prelude::*;

verus! {

/// The items of `v` in reverse order, moved out of it.
pub fn reversed<T>(v: Vec<T>) -> (r: Vec<T>)
    ensures
        r@.len() == v@.len(),
        forall|j: int| 0 <= j < v@.len() ==> r@[j] == v@[v@.len() - 1 - j],
{
    let ghost s = v@;
    let mut v = v;
    let mut rev: Vec<T> = Vec::new();
    while v.len() > 0
        invariant
            v@ == s.take(v@.len() as int),
            rev@.len() == s.len() - v@.len(),
            forall|j: int| 0 <= j < rev@.len() ==> rev@[j] == s[s.len() - 1 - j],
        decreases v.len(),
    {
        let x = v.pop().unwrap();
        rev.push(x);
    }
    rev
}

} // verus!
