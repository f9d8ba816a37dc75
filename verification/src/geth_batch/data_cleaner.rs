//! Removes a null value from a dataset and drops repeated items.
use vstd::prelude::*;
use vstd::laws_eq::obeys_concrete_eq;

verus! {

/// `s` without the items equal to `null`.
pub open spec fn without_value<T>(s: Seq<T>, null: T) -> Seq<T>
    decreases s.len(),
{
    if s.len() == 0 {
        Seq::empty()
    } else {
        let r = without_value(s.drop_last(), null);
        if s.last() == null {
            r
        } else {
            r.push(s.last())
        }
    }
}

/// `s` with each item kept only where it first appears.
pub open spec fn first_occurrences<T>(s: Seq<T>) -> Seq<T>
    decreases s.len(),
{
    if s.len() == 0 {
        Seq::empty()
    } else {
        let r = first_occurrences(s.drop_last());
        if r.contains(s.last()) {
            r
        } else {
            r.push(s.last())
        }
    }
}

/// No item occurs twice in `s`.
pub open spec fn no_repeats<T>(s: Seq<T>) -> bool {
    forall|i: int, j: int| 0 <= i < j < s.len() ==> s[i] != s[j]
}

/// What the cleaning of `data` gives: the null value removed, then repeats dropped.
pub open spec fn cleaned<T>(data: Seq<T>, null: T) -> Seq<T> {
    first_occurrences(without_value(data, null))
}

/// An item is in `s.push(y)` when it is in `s` or is `y`.
pub proof fn lemma_push_contains<T>(s: Seq<T>, y: T)
    ensures
        forall|x: T| #[trigger] s.push(y).contains(x) <==> (s.contains(x) || x == y),
{
    assert forall|x: T| #[trigger] s.push(y).contains(x) <==> (s.contains(x) || x == y) by {
        if s.push(y).contains(x) {
            let k = choose|k: int| 0 <= k < s.push(y).len() && s.push(y)[k] == x;
            if k < s.len() {
                assert(s[k] == x);
            }
        }
        if s.contains(x) {
            let k = choose|k: int| 0 <= k < s.len() && s[k] == x;
            assert(s.push(y)[k] == x);
        }
        if x == y {
            assert(s.push(y)[s.len() as int] == x);
        }
    }
}

/// `first_occurrences` keeps exactly the items of `s`, each once.
pub proof fn lemma_first_occurrences<T>(s: Seq<T>)
    ensures
        no_repeats(first_occurrences(s)),
        forall|x: T| #[trigger] first_occurrences(s).contains(x) <==> s.contains(x),
    decreases s.len(),
{
    if s.len() > 0 {
        let p = s.drop_last();
        let y = s.last();
        lemma_first_occurrences(p);
        let r = first_occurrences(p);
        assert(p.push(y) =~= s);
        lemma_push_contains(p, y);
        lemma_push_contains(r, y);
        if !r.contains(y) {
            assert forall|i: int, j: int| 0 <= i < j < r.push(y).len() implies r.push(y)[i]
                != r.push(y)[j] by {
                if j == r.len() {
                    if r[i] == y {
                        assert(r.contains(y));
                    }
                }
            }
        }
    }
}

/// `without_value` keeps exactly the items of `s` other than `null`.
pub proof fn lemma_without_value<T>(s: Seq<T>, null: T)
    ensures
        forall|x: T| #[trigger] without_value(s, null).contains(x) <==> (s.contains(x) && x != null),
    decreases s.len(),
{
    if s.len() > 0 {
        let p = s.drop_last();
        let y = s.last();
        lemma_without_value(p, null);
        assert(p.push(y) =~= s);
        lemma_push_contains(p, y);
        lemma_push_contains(without_value(p, null), y);
    }
}

/// A sequence without repeats is its own `first_occurrences`.
pub proof fn lemma_first_occurrences_of_distinct<T>(s: Seq<T>)
    requires
        no_repeats(s),
    ensures
        first_occurrences(s) == s,
    decreases s.len(),
{
    if s.len() > 0 {
        let p = s.drop_last();
        assert(no_repeats(p));
        lemma_first_occurrences_of_distinct(p);
        if p.contains(s.last()) {
            let k = choose|k: int| 0 <= k < p.len() && p[k] == s.last();
            assert(s[k] == s[s.len() - 1]);
        }
        assert(p.push(s.last()) =~= s);
    }
}

/// Cleaning leaves no null value and no repeated item, keeps every other item of
/// the data, and cleaning the result again changes nothing.
pub proof fn lemma_clean_dataset<T>(data: Seq<T>, null: T)
    ensures
        !cleaned(data, null).contains(null),
        no_repeats(cleaned(data, null)),
        forall|x: T| cleaned(data, null).contains(x) <==> (data.contains(x) && x != null),
        cleaned(cleaned(data, null), null) == cleaned(data, null),
{
    let w = without_value(data, null);
    lemma_without_value(data, null);
    lemma_first_occurrences(w);
    let c = cleaned(data, null);
    assert(w.contains(null) == (data.contains(null) && null != null));
    assert(c.contains(null) == w.contains(null));
    assert forall|x: T| c.contains(x) <==> (data.contains(x) && x != null) by {
        assert(c.contains(x) == w.contains(x));
        assert(w.contains(x) == (data.contains(x) && x != null));
    }
    lemma_without_value_absent(c, null);
    lemma_first_occurrences_of_distinct(c);
}

/// Removing a value that does not occur changes nothing.
pub proof fn lemma_without_value_absent<T>(s: Seq<T>, null: T)
    requires
        !s.contains(null),
    ensures
        without_value(s, null) == s,
    decreases s.len(),
{
    if s.len() > 0 {
        let p = s.drop_last();
        if p.contains(null) {
            let k = choose|k: int| 0 <= k < p.len() && p[k] == null;
            assert(s[k] == null);
        }
        lemma_without_value_absent(p, null);
        if s[s.len() - 1] == null {
            assert(s.contains(null));
        }
        assert(p.push(s.last()) =~= s);
    }
}

/// A dataset being cleaned.
pub struct DataCleaner<T> {
    data: Vec<T>,
}

/// Whether `v` holds an item equal to `x`.
fn holds<T: PartialEq>(v: &Vec<T>, x: &T) -> (b: bool)
    requires
        obeys_concrete_eq::<T>(),
    ensures
        b == v@.contains(*x),
{
    proof {
        reveal(obeys_concrete_eq);
    }
    let mut i: usize = 0;
    while i < v.len()
        invariant
            i <= v@.len(),
            obeys_concrete_eq::<T>(),
            forall|j: int| 0 <= j < i ==> v@[j] != *x,
        decreases v.len() - i,
    {
        proof {
            reveal(obeys_concrete_eq);
        }
        if v[i] == *x {
            assert(v@[i as int] == *x);
            return true;
        }
        i += 1;
    }
    false
}

/// The items of `v` in order, taken out of it.
fn drain_in_order<T>(v: Vec<T>) -> (r: Vec<T>)
    ensures
        r@ == v@,
{
    let mut v = v;
    let ghost s = v@;
    let mut rev: Vec<T> = Vec::new();
    while v.len() > 0
        invariant
            v@ == s.take(v@.len() as int),
            rev@.len() == s.len() - v@.len(),
            forall|j: int| 0 <= j < rev@.len() ==> rev@[j] == s[s.len() - 1 - j],
        decreases v.len(),
    {
        let x = v.pop().unwrap();
        rev.push(x);
    }
    let mut out: Vec<T> = Vec::new();
    while rev.len() > 0
        invariant
            rev@.len() + out@.len() == s.len(),
            forall|j: int| 0 <= j < rev@.len() ==> rev@[j] == s[s.len() - 1 - j],
            out@ == s.take(out@.len() as int),
        decreases rev.len(),
    {
        let x = rev.pop().unwrap();
        let ghost k = out@.len() as int;
        out.push(x);
        assert(out@ =~= s.take(k + 1));
    }
    assert(out@ =~= s);
    out
}

impl<T: PartialEq> DataCleaner<T> {
    /// The items of the dataset.
    pub closed spec fn items(&self) -> Seq<T> {
        self.data@
    }

    /// A cleaner for `data`.
    pub fn new(data: Vec<T>) -> (c: DataCleaner<T>)
        ensures
            c.items() == data@,
    {
        DataCleaner { data }
    }

    /// Removes the items equal to `null_value`.
    pub fn remove_null_values(&mut self, null_value: T) -> (r: &mut Self)
        requires
            obeys_concrete_eq::<T>(),
        ensures
            r.items() == without_value(old(self).items(), null_value),
            *final(self) == *final(r),
    {
        let mut taken: Vec<T> = Vec::new();
        std::mem::swap(&mut taken, &mut self.data);
        let items = drain_in_order(taken);
        let ghost s = items@;
        let mut items = items;
        let mut rev: Vec<T> = Vec::new();
        while items.len() > 0
            invariant
                items@ == s.take(items@.len() as int),
                rev@.len() == s.len() - items@.len(),
                forall|j: int| 0 <= j < rev@.len() ==> rev@[j] == s[s.len() - 1 - j],
            decreases items.len(),
        {
            let x = items.pop().unwrap();
            rev.push(x);
        }
        let mut kept: Vec<T> = Vec::new();
        while rev.len() > 0
            invariant
                obeys_concrete_eq::<T>(),
                rev@.len() <= s.len(),
                forall|j: int| 0 <= j < rev@.len() ==> rev@[j] == s[s.len() - 1 - j],
                kept@ == without_value(s.take(s.len() - rev@.len()), null_value),
            decreases rev.len(),
        {
            proof {
                reveal(obeys_concrete_eq);
            }
            let ghost k = s.len() - rev@.len();
            let x = rev.pop().unwrap();
            assert(x == s[k]);
            assert(s.take(k + 1).drop_last() =~= s.take(k));
            if !(x == null_value) {
                kept.push(x);
            }
        }
        assert(s.take(s.len() as int) =~= s);
        self.data = kept;
        self
    }

    /// Keeps each item only where it first appears.
    pub fn deduplicate(&mut self) -> (r: &mut Self)
        requires
            obeys_concrete_eq::<T>(),
        ensures
            r.items() == first_occurrences(old(self).items()),
            *final(self) == *final(r),
    {
        let mut taken: Vec<T> = Vec::new();
        std::mem::swap(&mut taken, &mut self.data);
        let ghost s = taken@;
        let mut items = taken;
        let mut rev: Vec<T> = Vec::new();
        while items.len() > 0
            invariant
                items@ == s.take(items@.len() as int),
                rev@.len() == s.len() - items@.len(),
                forall|j: int| 0 <= j < rev@.len() ==> rev@[j] == s[s.len() - 1 - j],
            decreases items.len(),
        {
            let x = items.pop().unwrap();
            rev.push(x);
        }
        let mut kept: Vec<T> = Vec::new();
        while rev.len() > 0
            invariant
                obeys_concrete_eq::<T>(),
                rev@.len() <= s.len(),
                forall|j: int| 0 <= j < rev@.len() ==> rev@[j] == s[s.len() - 1 - j],
                kept@ == first_occurrences(s.take(s.len() - rev@.len())),
            decreases rev.len(),
        {
            let ghost k = s.len() - rev@.len();
            let x = rev.pop().unwrap();
            assert(x == s[k]);
            assert(s.take(k + 1).drop_last() =~= s.take(k));
            if !holds(&kept, &x) {
                kept.push(x);
            }
        }
        assert(s.take(s.len() as int) =~= s);
        self.data = kept;
        self
    }

    /// The items of the dataset.
    pub fn get_data(&self) -> (r: &Vec<T>)
        ensures
            r@ == self.items(),
    {
        &self.data
    }

    /// The items of the dataset, taken out of the cleaner.
    pub fn into_data(self) -> (r: Vec<T>)
        ensures
            r@ == self.items(),
    {
        self.data
    }
}

/// Removes `null_value` from `data`, then keeps each remaining item only where it
/// first appears.
pub fn clean_dataset<T: PartialEq>(data: Vec<T>, null_value: T) -> (r: Vec<T>)
    requires
        obeys_concrete_eq::<T>(),
    ensures
        r@ == cleaned(data@, null_value),
{
    let mut cleaner = DataCleaner::new(data);
    cleaner.remove_null_values(null_value).deduplicate();
    cleaner.into_data()
}

} // verus!
