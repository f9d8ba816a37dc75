//! A dataset cleaner for items that can be null (an empty string) and compared.
use vstd::prelude::*;
use crate::geth_batch::data_cleaner::{first_occurrences, no_repeats, lemma_first_occurrences, lemma_push_contains};
use crate::text::str_eq;

verus! {

/// Items that a `DataCleaner` can hold: it can tell a null item and compare two.
pub trait Cleanable: View + Sized {
    /// Whether an item with this view is null.
    spec fn null_view(v: Self::V) -> bool;

    /// Whether the item is null.
    fn is_null(&self) -> (b: bool)
        ensures
            b == Self::null_view(self@);

    /// Whether two items are equal.
    fn same(&self, other: &Self) -> (b: bool)
        ensures
            b == (self@ == other@);
}

impl Cleanable for String {
    /// A string is null when it is empty.
    open spec fn null_view(v: Seq<char>) -> bool {
        v.len() == 0
    }

    fn is_null(&self) -> (b: bool) {
        self.as_str().is_empty()
    }

    fn same(&self, other: &Self) -> (b: bool) {
        str_eq(self.as_str(), other.as_str())
    }
}

impl Cleanable for i32 {
    /// A number is never null.
    open spec fn null_view(v: i32) -> bool {
        false
    }

    fn is_null(&self) -> (b: bool) {
        false
    }

    fn same(&self, other: &Self) -> (b: bool) {
        *self == *other
    }
}

impl Cleanable for i64 {
    /// A number is never null.
    open spec fn null_view(v: i64) -> bool {
        false
    }

    fn is_null(&self) -> (b: bool) {
        false
    }

    fn same(&self, other: &Self) -> (b: bool) {
        *self == *other
    }
}

impl Cleanable for u32 {
    /// A number is never null.
    open spec fn null_view(v: u32) -> bool {
        false
    }

    fn is_null(&self) -> (b: bool) {
        false
    }

    fn same(&self, other: &Self) -> (b: bool) {
        *self == *other
    }
}

impl Cleanable for u64 {
    /// A number is never null.
    open spec fn null_view(v: u64) -> bool {
        false
    }

    fn is_null(&self) -> (b: bool) {
        false
    }

    fn same(&self, other: &Self) -> (b: bool) {
        *self == *other
    }
}

/// The views of the items of `s`.
pub open spec fn item_views<T: View>(s: Seq<T>) -> Seq<T::V> {
    Seq::new(s.len(), |i: int| s[i]@)
}

/// `s` without its null items.
pub open spec fn without_nulls<T: Cleanable>(s: Seq<T::V>) -> Seq<T::V>
    decreases s.len(),
{
    if s.len() == 0 {
        Seq::empty()
    } else {
        let r = without_nulls::<T>(s.drop_last());
        if T::null_view(s.last()) {
            r
        } else {
            r.push(s.last())
        }
    }
}

/// `without_nulls` keeps exactly the items of `s` that are not null.
pub proof fn lemma_without_nulls<T: Cleanable>(s: Seq<T::V>)
    ensures
        forall|x: T::V| #[trigger] without_nulls::<T>(s).contains(x) <==> (s.contains(x)
            && !T::null_view(x)),
    decreases s.len(),
{
    if s.len() > 0 {
        let p = s.drop_last();
        lemma_without_nulls::<T>(p);
        assert(p.push(s.last()) =~= s);
        lemma_push_contains(p, s.last());
        lemma_push_contains(without_nulls::<T>(p), s.last());
    }
}

/// The items of `v`, in order, taken out of it.
fn reversed_items<T>(v: Vec<T>) -> (r: Vec<T>)
    ensures
        r@.len() == v@.len(),
        forall|j: int| 0 <= j < v@.len() ==> r@[j] == v@[v@.len() - 1 - j],
{
    let ghost s = v@;
    let mut v = v;
    let mut rev: Vec<T> = Vec::new();
    while v.len() > 0
        invariant
            v@ == s.take(v@.len() as int),
            rev@.len() == s.len() - v@.len(),
            forall|j: int| 0 <= j < rev@.len() ==> rev@[j] == s[s.len() - 1 - j],
        decreases v.len(),
    {
        let x = v.pop().unwrap();
        rev.push(x);
    }
    rev
}

/// Whether `v` holds an item equal to `x`.
fn holds_item<T: Cleanable>(v: &Vec<T>, x: &T) -> (b: bool)
    ensures
        b == item_views(v@).contains(x@),
{
    let mut i: usize = 0;
    while i < v.len()
        invariant
            i <= v@.len(),
            forall|j: int| 0 <= j < i ==> v@[j]@ != x@,
        decreases v.len() - i,
    {
        if v[i].same(x) {
            assert(item_views(v@)[i as int] == x@);
            return true;
        }
        i += 1;
    }
    assert(!item_views(v@).contains(x@)) by {
        if item_views(v@).contains(x@) {
            let k = choose|k: int| 0 <= k < item_views(v@).len() && item_views(v@)[k] == x@;
            assert(v@[k]@ == x@);
        }
    }
    false
}

/// A dataset being cleaned.
pub struct DataCleaner<T> {
    data: Vec<T>,
}

impl<T: Cleanable> DataCleaner<T> {
    /// The views of the items of the dataset.
    pub closed spec fn items(&self) -> Seq<T::V> {
        item_views(self.data@)
    }

    /// A cleaner for `data`.
    pub fn new(data: Vec<T>) -> (c: DataCleaner<T>)
        ensures
            c.items() == item_views(data@),
    {
        DataCleaner { data }
    }

    /// Removes the null items; every other item stays, in order.
    pub fn remove_null_values(&mut self) -> (r: &mut Self)
        ensures
            r.items() == without_nulls::<T>(old(self).items()),
            forall|x: T::V| #[trigger] r.items().contains(x) <==> (old(self).items().contains(x)
                && !T::null_view(x)),
            *final(self) == *final(r),
    {
        proof {
            lemma_without_nulls::<T>(self.items());
        }
        let mut taken: Vec<T> = Vec::new();
        std::mem::swap(&mut taken, &mut self.data);
        let ghost s = item_views(taken@);
        let mut rev = reversed_items(taken);
        let mut kept: Vec<T> = Vec::new();
        while rev.len() > 0
            invariant
                rev@.len() <= s.len(),
                forall|j: int| 0 <= j < rev@.len() ==> rev@[j]@ == s[s.len() - 1 - j],
                item_views(kept@) == without_nulls::<T>(s.take(s.len() - rev@.len())),
            decreases rev.len(),
        {
            let ghost k = s.len() - rev@.len();
            let ghost before = kept@;
            let x = rev.pop().unwrap();
            assert(x@ == s[k]);
            assert(s.take(k + 1).drop_last() =~= s.take(k));
            if !x.is_null() {
                kept.push(x);
                assert(item_views(kept@) =~= item_views(before).push(s[k]));
            }
        }
        assert(s.take(s.len() as int) =~= s);
        self.data = kept;
        self
    }

    /// Keeps each item only where it first appears; afterwards no item occurs
    /// twice and every item that was held still is.
    pub fn deduplicate(&mut self) -> (r: &mut Self)
        ensures
            r.items() == first_occurrences(old(self).items()),
            no_repeats(r.items()),
            forall|x: T::V| #[trigger] r.items().contains(x) <==> old(self).items().contains(x),
            *final(self) == *final(r),
    {
        proof {
            lemma_first_occurrences(self.items());
        }
        let mut taken: Vec<T> = Vec::new();
        std::mem::swap(&mut taken, &mut self.data);
        let ghost s = item_views(taken@);
        let mut rev = reversed_items(taken);
        let mut kept: Vec<T> = Vec::new();
        while rev.len() > 0
            invariant
                rev@.len() <= s.len(),
                forall|j: int| 0 <= j < rev@.len() ==> rev@[j]@ == s[s.len() - 1 - j],
                item_views(kept@) == first_occurrences(s.take(s.len() - rev@.len())),
            decreases rev.len(),
        {
            let ghost k = s.len() - rev@.len();
            let ghost before = kept@;
            let x = rev.pop().unwrap();
            assert(x@ == s[k]);
            assert(s.take(k + 1).drop_last() =~= s.take(k));
            if !holds_item(&kept, &x) {
                kept.push(x);
                assert(item_views(kept@) =~= item_views(before).push(s[k]));
            }
        }
        assert(s.take(s.len() as int) =~= s);
        self.data = kept;
        self
    }

    /// The items of the dataset.
    pub fn get_data(&self) -> (r: &Vec<T>)
        ensures
            item_views(r@) == self.items(),
    {
        &self.data
    }

    /// The items of the dataset, taken out of the cleaner.
    pub fn into_data(self) -> (r: Vec<T>)
        ensures
            item_views(r@) == self.items(),
    {
        self.data
    }
}

} // verus!
