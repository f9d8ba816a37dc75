//! The checks made on a measurement record, the tagging of records, and the
//! errors of their processing.
//!
//! A record's measurements are floating-point numbers kept by name; what the
//! checks read of them (each name, in the order the record's map is walked, and
//! whether its value is finite) is handed in as plain values, and the values
//! themselves are scaled and summed by the caller.
use vstd::prelude::*;
use crate::text::{string_views, trim, is_blank, concat_str};
use crate::text_list::holds_text;
use crate::era1::record_checks::entry_views;

verus! {

/// Why processing failed.
#[derive(Debug)]
pub enum DataError {
    InvalidInput,
    TransformationFailed,
    ValidationError(String),
}

impl DataError {
    /// The text of the error.
    pub open spec fn text(&self) -> Seq<char> {
        match self {
            DataError::InvalidInput => "Invalid input data"@,
            DataError::TransformationFailed => "Transformation failed"@,
            DataError::ValidationError(m) => "Validation error: "@ + m@,
        }
    }

    /// The text of the error.
    pub fn message(&self) -> (m: String)
        ensures
            m@ == self.text(),
    {
        match self {
            DataError::InvalidInput => "Invalid input data".to_string(),
            DataError::TransformationFailed => "Transformation failed".to_string(),
            DataError::ValidationError(m) => concat_str("Validation error: ", m.as_str()),
        }
    }
}

/// The message of the first measurement of `es` from `i` on with a blank name or
/// a value that is not finite.
pub open spec fn measurement_problem(es: Seq<(Seq<char>, bool)>, i: int) -> Option<Seq<char>>
    decreases es.len() - i,
{
    if i < 0 || i >= es.len() {
        None
    } else if trim(es[i].0).len() == 0 {
        Some("Key cannot be empty"@)
    } else if !es[i].1 {
        Some("Value for "@ + es[i].0 + " is not finite"@)
    } else {
        measurement_problem(es, i + 1)
    }
}

/// The message of the first check that a record fails.
pub open spec fn data_problem(id: u64, timestamp: i64, es: Seq<(Seq<char>, bool)>) -> Option<Seq<char>> {
    if id == 0 {
        Some("ID cannot be zero"@)
    } else if timestamp < 0 {
        Some("Timestamp cannot be negative"@)
    } else if es.len() == 0 {
        Some("Values cannot be empty"@)
    } else {
        measurement_problem(es, 0)
    }
}

/// Checks a record: a non-zero identifier, a timestamp that is not negative, at
/// least one measurement, and each measurement (`entries`: its name and whether
/// its value is finite) with a name that is not blank and a finite value; the
/// first failure is reported.
pub fn validate_record(id: u64, timestamp: i64, entries: &Vec<(String, bool)>) -> (r: Result<(), DataError>)
    ensures
        match data_problem(id, timestamp, entry_views(entries@)) {
            None => r is Ok,
            Some(m) => r matches Err(DataError::ValidationError(x)) && x@ == m,
        },
{
    if id == 0 {
        return Err(DataError::ValidationError("ID cannot be zero".to_string()));
    }
    if timestamp < 0 {
        return Err(DataError::ValidationError("Timestamp cannot be negative".to_string()));
    }
    if entries.len() == 0 {
        return Err(DataError::ValidationError("Values cannot be empty".to_string()));
    }
    let ghost es = entry_views(entries@);
    let mut i: usize = 0;
    while i < entries.len()
        invariant
            i <= entries@.len(),
            es == entry_views(entries@),
            id != 0,
            timestamp >= 0,
            entries@.len() > 0,
            measurement_problem(es, 0) == measurement_problem(es, i as int),
        decreases entries.len() - i,
    {
        let (key, finite) = (&entries[i].0, entries[i].1);
        assert(es[i as int] == (key@, finite));
        if is_blank(key.as_str()) {
            return Err(DataError::ValidationError("Key cannot be empty".to_string()));
        }
        if !finite {
            let a = concat_str("Value for ", key.as_str());
            return Err(DataError::ValidationError(concat_str(a.as_str(), " is not finite")));
        }
        i += 1;
    }
    Ok(())
}

/// Adds `tag` to `tags` unless it is there already.
pub fn add_tag(tags: &mut Vec<String>, tag: String)
    ensures
        string_views(old(tags)@).contains(tag@) ==> final(tags)@ == old(tags)@,
        !string_views(old(tags)@).contains(tag@) ==> final(tags)@ == old(tags)@.push(tag),
{
    if !holds_text(tags, tag.as_str()) {
        tags.push(tag);
    }
}

} // verus!
