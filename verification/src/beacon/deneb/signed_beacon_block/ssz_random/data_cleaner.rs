//! The text fields of a data record: the name trimmed, the category trimmed and
//! lowercased, and records without a name skipped. The record's number is handled
//! by the caller.
use vstd::prelude::*;
use crate::text::{trim, trim_str, lowercase, to_lowercase};

verus! {

/// The cleaned name and category of a record, or `None` when the trimmed name is
/// empty and the record is skipped.
pub open spec fn cleaned_labels(name: Seq<char>, category: Seq<char>) -> Option<(Seq<char>, Seq<char>)> {
    if trim(name).len() == 0 {
        None
    } else {
        Some((trim(name), lowercase(trim(category))))
    }
}

/// The name trimmed and the category trimmed and lowercased; `None` when the
/// trimmed name is empty.
pub fn clean_labels(name: &str, category: &str) -> (r: Option<(String, String)>)
    ensures
        match cleaned_labels(name@, category@) {
            None => r is None,
            Some(c) => r matches Some(x) && (x.0@, x.1@) == c,
        },
{
    let n = trim_str(name);
    let t = trim_str(category);
    let c = to_lowercase(t.as_str());
    if n.as_str().is_empty() {
        None
    } else {
        Some((n, c))
    }
}

/// Whether a record's name and category are both non-empty.
pub fn labels_valid(name: &str, category: &str) -> (b: bool)
    ensures
        b == (name@.len() > 0 && category@.len() > 0),
{
    !name.is_empty() && !category.is_empty()
}

} // verus!
