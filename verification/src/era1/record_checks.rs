//! The checks made on a measurement record before it is accepted, and the errors
//! of its processing.
//!
//! A record's measurements are floating-point numbers kept by name; what the
//! checks read of them (each name, in the order the record's map is walked, and
//! whether its value is finite) is handed in as plain values.
use vstd::prelude::*;
use crate::text::{trim, is_blank, concat_str};

verus! {

/// Why processing failed.
#[derive(Debug)]
pub enum ProcessingError {
    InvalidFormat,
    MissingField(String),
    ValidationFailed(String),
}

impl ProcessingError {
    /// The text of the error.
    pub open spec fn text(&self) -> Seq<char> {
        match self {
            ProcessingError::InvalidFormat => "Invalid data format"@,
            ProcessingError::MissingField(f) => "Missing required field: "@ + f@,
            ProcessingError::ValidationFailed(m) => "Validation failed: "@ + m@,
        }
    }

    /// The text of the error.
    pub fn message(&self) -> (m: String)
        ensures
            m@ == self.text(),
    {
        match self {
            ProcessingError::InvalidFormat => "Invalid data format".to_string(),
            ProcessingError::MissingField(f) => concat_str("Missing required field: ", f.as_str()),
            ProcessingError::ValidationFailed(m) => concat_str("Validation failed: ", m.as_str()),
        }
    }
}

/// What the checks read of a record: its identifier, its timestamp, and for each
/// measurement its name and whether its value is finite.
pub struct RecordFacts {
    pub id: u64,
    pub timestamp: i64,
    pub entries: Vec<(String, bool)>,
}

/// The views of measurement names with their finiteness.
pub open spec fn entry_views(es: Seq<(String, bool)>) -> Seq<(Seq<char>, bool)> {
    Seq::new(es.len(), |i: int| (es[i].0@, es[i].1))
}

/// The message of the first measurement of `es` from `i` on with a blank name or
/// a value that is not finite.
pub open spec fn entry_problem(es: Seq<(Seq<char>, bool)>, i: int) -> Option<Seq<char>>
    decreases es.len() - i,
{
    if i < 0 || i >= es.len() {
        None
    } else if trim(es[i].0).len() == 0 {
        Some("Key cannot be empty"@)
    } else if !es[i].1 {
        Some("Value for key '"@ + es[i].0 + "' must be finite"@)
    } else {
        entry_problem(es, i + 1)
    }
}

/// The message of the first check that a record fails.
pub open spec fn record_problem(id: u64, timestamp: i64, es: Seq<(Seq<char>, bool)>) -> Option<Seq<char>> {
    if id == 0 {
        Some("ID cannot be zero"@)
    } else if timestamp < 0 {
        Some("Timestamp cannot be negative"@)
    } else if es.len() == 0 {
        Some("Values cannot be empty"@)
    } else {
        entry_problem(es, 0)
    }
}

impl RecordFacts {
    /// Checks the record: a non-zero identifier, a timestamp that is not negative,
    /// at least one measurement, and each measurement with a name that is not
    /// blank and a finite value, the first failure being reported.
    pub fn validate(&self) -> (r: Result<(), ProcessingError>)
        ensures
            match record_problem(self.id, self.timestamp, entry_views(self.entries@)) {
                None => r is Ok,
                Some(m) => r matches Err(ProcessingError::ValidationFailed(x)) && x@ == m,
            },
    {
        if self.id == 0 {
            return Err(ProcessingError::ValidationFailed("ID cannot be zero".to_string()));
        }
        if self.timestamp < 0 {
            return Err(ProcessingError::ValidationFailed("Timestamp cannot be negative".to_string()));
        }
        if self.entries.len() == 0 {
            return Err(ProcessingError::ValidationFailed("Values cannot be empty".to_string()));
        }
        let ghost es = entry_views(self.entries@);
        let mut i: usize = 0;
        while i < self.entries.len()
            invariant
                i <= self.entries@.len(),
                es == entry_views(self.entries@),
                self.id != 0,
                self.timestamp >= 0,
                self.entries@.len() > 0,
                entry_problem(es, 0) == entry_problem(es, i as int),
            decreases self.entries.len() - i,
        {
            let (key, finite) = (&self.entries[i].0, self.entries[i].1);
            assert(es[i as int] == (key@, finite));
            if is_blank(key.as_str()) {
                return Err(ProcessingError::ValidationFailed("Key cannot be empty".to_string()));
            }
            if !finite {
                let a = concat_str("Value for key '", key.as_str());
                return Err(ProcessingError::ValidationFailed(concat_str(a.as_str(), "' must be finite")));
            }
            i += 1;
        }
        Ok(())
    }
}

} // verus!
