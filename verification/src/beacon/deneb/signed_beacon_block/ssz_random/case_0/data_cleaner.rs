//! Cleaning a list of texts: trimming and lowercasing, dropping empty items and
//! repeats.
use vstd::prelude::*;
use crate::geth_batch::data_cleaner::{first_occurrences, without_value, no_repeats, lemma_first_occurrences, lemma_without_value};
use crate::text::{string_views, trim, trim_str, lowercase, to_lowercase};
use crate::text_list::{first_texts, nonempty_texts};

verus! {

/// Each text of `s` trimmed, then lowercased.
pub open spec fn normalized(s: Seq<Seq<char>>) -> Seq<Seq<char>> {
    Seq::new(s.len(), |i: int| lowercase(trim(s[i])))
}

/// What a full cleaning of `s` gives: normalized, empty texts dropped, then repeats.
pub open spec fn processed(s: Seq<Seq<char>>) -> Seq<Seq<char>> {
    first_occurrences(without_value(normalized(s), Seq::<char>::empty()))
}

/// A list of texts being cleaned.
pub struct DataCleaner {
    data: Vec<String>,
}

impl DataCleaner {
    /// The texts held.
    pub closed spec fn items(&self) -> Seq<Seq<char>> {
        string_views(self.data@)
    }

    /// A cleaner for `data`.
    pub fn new(data: Vec<String>) -> (c: DataCleaner)
        ensures
            c.items() == string_views(data@),
    {
        DataCleaner { data }
    }

    /// Keeps each text only where it first appears.
    pub fn deduplicate(&mut self) -> (r: &mut Self)
        ensures
            r.items() == first_occurrences(old(self).items()),
            *final(self) == *final(r),
    {
        self.data = first_texts(&self.data);
        self
    }

    /// Trims each text and lowercases it.
    pub fn normalize(&mut self) -> (r: &mut Self)
        ensures
            r.items() == normalized(old(self).items()),
            *final(self) == *final(r),
    {
        let ghost s = self.items();
        let mut out: Vec<String> = Vec::new();
        let mut i: usize = 0;
        while i < self.data.len()
            invariant
                i <= self.data@.len(),
                s == string_views(self.data@),
                out@.len() == i,
                forall|j: int| 0 <= j < i ==> out@[j]@ == lowercase(trim(s[j])),
            decreases self.data.len() - i,
        {
            let t = trim_str(self.data[i].as_str());
            let l = to_lowercase(t.as_str());
            out.push(l);
            i += 1;
        }
        self.data = out;
        assert(self.items() =~= normalized(s));
        self
    }

    /// Drops the empty texts.
    pub fn filter_empty(&mut self) -> (r: &mut Self)
        ensures
            r.items() == without_value(old(self).items(), Seq::<char>::empty()),
            *final(self) == *final(r),
    {
        self.data = nonempty_texts(&self.data);
        self
    }

    /// The texts held.
    pub fn get_data(&self) -> (r: &Vec<String>)
        ensures
            string_views(r@) == self.items(),
    {
        &self.data
    }

    /// Normalizes the texts, drops the empty ones, then the repeats. The result
    /// holds each non-empty normalized text once.
    pub fn process(&mut self) -> (r: &Vec<String>)
        ensures
            string_views(r@) == processed(old(self).items()),
            final(self).items() == string_views(r@),
            no_repeats(string_views(r@)),
            !string_views(r@).contains(Seq::<char>::empty()),
            forall|t: Seq<char>| #[trigger] string_views(r@).contains(t) <==> (t != Seq::<char>::empty()
                && normalized(old(self).items()).contains(t)),
    {
        proof {
            let n = normalized(self.items());
            let w = without_value(n, Seq::<char>::empty());
            lemma_without_value(n, Seq::<char>::empty());
            lemma_first_occurrences(w);
        }
        self.normalize().filter_empty().deduplicate();
        &self.data
    }
}

} // verus!
