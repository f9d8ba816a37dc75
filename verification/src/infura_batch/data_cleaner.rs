//! A list of texts with repeats dropped, checked for blank items and uppercased.
use vstd::prelude::*;
use crate::geth_batch::data_cleaner::{first_occurrences, no_repeats, lemma_first_occurrences};
use crate::numbers::decimal_text;
use crate::packets::decimal;
use crate::text::{string_views, trim, is_blank, uppercase, to_uppercase, concat_str};
use crate::text_list::first_texts;

verus! {

/// The first position of a text of `s` that is blank once trimmed.
pub open spec fn first_blank(s: Seq<Seq<char>>) -> Option<int>
    decreases s.len(),
{
    if s.len() == 0 {
        None
    } else {
        match first_blank(s.drop_last()) {
            Some(i) => Some(i),
            None => if trim(s.last()).len() == 0 {
                Some(s.len() - 1)
            } else {
                None
            },
        }
    }
}

/// The message given for a blank text at position `i`.
pub open spec fn blank_message(i: int) -> Seq<char> {
    "Empty string found at index "@ + decimal_text(i as nat)
}

/// A list of texts being cleaned.
pub struct DataCleaner {
    data: Vec<String>,
}

impl DataCleaner {
    /// The texts held.
    pub closed spec fn items(&self) -> Seq<Seq<char>> {
        string_views(self.data@)
    }

    /// A cleaner for `data`.
    pub fn new(data: Vec<String>) -> (c: DataCleaner)
        ensures
            c.items() == string_views(data@),
    {
        DataCleaner { data }
    }

    /// Keeps each text only where it first appears; afterwards no text occurs
    /// twice and every text that was held still is.
    pub fn deduplicate(&mut self) -> (r: &mut Self)
        ensures
            r.items() == first_occurrences(old(self).items()),
            no_repeats(r.items()),
            forall|t: Seq<char>| #[trigger] r.items().contains(t) <==> old(self).items().contains(t),
            *final(self) == *final(r),
    {
        proof {
            lemma_first_occurrences(self.items());
        }
        self.data = first_texts(&self.data);
        self
    }

    /// `Ok` when no text is blank once trimmed; otherwise the error names the
    /// first blank one.
    pub fn validate_non_empty(&self) -> (r: Result<(), String>)
        ensures
            match first_blank(self.items()) {
                None => r is Ok,
                Some(i) => r matches Err(m) && m@ == blank_message(i),
            },
    {
        let ghost s = self.items();
        let mut i: usize = 0;
        while i < self.data.len()
            invariant
                i <= self.data@.len(),
                s == string_views(self.data@),
                first_blank(s.take(i as int)) is None,
            decreases self.data.len() - i,
        {
            assert(s.take(i + 1).drop_last() =~= s.take(i as int));
            if is_blank(self.data[i].as_str()) {
                let n = decimal(i as u64);
                let m = concat_str("Empty string found at index ", n.as_str());
                proof {
                    lemma_first_blank_prefix(s, i + 1);
                }
                return Err(m);
            }
            i += 1;
        }
        assert(s.take(self.data@.len() as int) =~= s);
        Ok(())
    }

    /// Uppercases each text.
    pub fn transform_to_uppercase(&mut self) -> (r: &mut Self)
        ensures
            r.items() == Seq::new(old(self).items().len(), |i: int| uppercase(old(self).items()[i])),
            *final(self) == *final(r),
    {
        let ghost s = self.items();
        let mut out: Vec<String> = Vec::new();
        let mut i: usize = 0;
        while i < self.data.len()
            invariant
                i <= self.data@.len(),
                s == string_views(self.data@),
                out@.len() == i,
                forall|j: int| 0 <= j < i ==> out@[j]@ == uppercase(s[j]),
            decreases self.data.len() - i,
        {
            let u = to_uppercase(self.data[i].as_str());
            out.push(u);
            i += 1;
        }
        self.data = out;
        assert(self.items() =~= Seq::new(s.len(), |i: int| uppercase(s[i])));
        self
    }

    /// The texts held.
    pub fn get_data(&self) -> (r: &Vec<String>)
        ensures
            string_views(r@) == self.items(),
    {
        &self.data
    }

    /// How many texts are held.
    pub fn count(&self) -> (n: usize)
        ensures
            n == self.items().len(),
    {
        self.data.len()
    }
}

/// A first blank text in a prefix is the first blank text of the whole.
proof fn lemma_first_blank_prefix(s: Seq<Seq<char>>, k: int)
    requires
        0 <= k <= s.len(),
        first_blank(s.take(k)) is Some,
    ensures
        first_blank(s) == first_blank(s.take(k)),
    decreases s.len() - k,
{
    if k < s.len() {
        assert(s.take(k + 1).drop_last() =~= s.take(k));
        lemma_first_blank_prefix(s, k + 1);
    } else {
        assert(s.take(k) =~= s);
    }
}

} // verus!
