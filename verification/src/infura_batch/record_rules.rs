//! The rules that records are checked against before they are processed, the
//! tidying of their names and tags, the errors of their processing, and the
//! counts kept of it.
//!
//! A record's value is a floating-point number; what the rules read of it
//! (whether it lies in the allowed range) is handed in as a plain value, and the
//! value itself is scaled by the caller.
use vstd::prelude::*;
use crate::text::{string_views, trim, trim_str, is_blank, concat_str, uppercase, to_uppercase};
use crate::text_list::holds_text;
use crate::text_order::{strictly_sorted, sorted_unique};

verus! {

/// Why a record could not be made.
#[derive(Debug)]
pub enum ValidationError {
    InvalidId,
    InvalidValue,
    EmptyCategory,
}

impl ValidationError {
    /// The text of the error.
    pub open spec fn text(&self) -> Seq<char> {
        match self {
            ValidationError::InvalidId => "ID must be greater than zero"@,
            ValidationError::InvalidValue => "Value must be between 0.0 and 1000.0"@,
            ValidationError::EmptyCategory => "Category cannot be empty"@,
        }
    }

    /// The text of the error.
    pub fn message(&self) -> (m: String)
        ensures
            m@ == self.text(),
    {
        match self {
            ValidationError::InvalidId => "ID must be greater than zero".to_string(),
            ValidationError::InvalidValue => "Value must be between 0.0 and 1000.0".to_string(),
            ValidationError::EmptyCategory => "Category cannot be empty".to_string(),
        }
    }
}

/// The checks made when a record is created: a non-zero identifier, a value in
/// range (`value_in_range`), and a category that is not blank, in that order.
/// On success, the category trimmed.
pub fn check_new_record(id: u32, value_in_range: bool, category: &str) -> (r: Result<String, ValidationError>)
    ensures
        id == 0 ==> (r matches Err(ValidationError::InvalidId)),
        id != 0 && !value_in_range ==> (r matches Err(ValidationError::InvalidValue)),
        id != 0 && value_in_range && trim(category@).len() == 0 ==> (r matches Err(
            ValidationError::EmptyCategory,
        )),
        id != 0 && value_in_range && trim(category@).len() > 0 ==> (r matches Ok(c) && c@ == trim(
            category@,
        )),
{
    if id == 0 {
        return Err(ValidationError::InvalidId);
    }
    if !value_in_range {
        return Err(ValidationError::InvalidValue);
    }
    if is_blank(category) {
        return Err(ValidationError::EmptyCategory);
    }
    Ok(trim_str(category))
}

/// Why processing a record failed.
#[derive(Debug)]
pub enum ProcessingError {
    InvalidData(String),
    TransformationError(String),
    ValidationError(String),
}

impl ProcessingError {
    /// The text of the error.
    pub open spec fn text(&self) -> Seq<char> {
        match self {
            ProcessingError::InvalidData(m) => "Invalid data: "@ + m@,
            ProcessingError::TransformationError(m) => "Transformation error: "@ + m@,
            ProcessingError::ValidationError(m) => "Validation error: "@ + m@,
        }
    }

    /// The text of the error.
    pub fn message(&self) -> (m: String)
        ensures
            m@ == self.text(),
    {
        match self {
            ProcessingError::InvalidData(m) => concat_str("Invalid data: ", m.as_str()),
            ProcessingError::TransformationError(m) => concat_str("Transformation error: ", m.as_str()),
            ProcessingError::ValidationError(m) => concat_str("Validation error: ", m.as_str()),
        }
    }
}

/// The message for the first tag of `tags` that is not among `allowed`, if any.
pub open spec fn tag_problem(tags: Seq<Seq<char>>, allowed: Seq<Seq<char>>) -> Option<Seq<char>>
    decreases tags.len(),
{
    if tags.len() == 0 {
        None
    } else {
        match tag_problem(tags.drop_last(), allowed) {
            Some(m) => Some(m),
            None => if allowed.contains(tags.last()) {
                None
            } else {
                Some("Tag '"@ + tags.last() + "' is not allowed"@)
            },
        }
    }
}

/// Checks a record's name and tags: the name must not be blank and each tag must
/// be allowed; the first failure is reported.
pub fn check_labels(name: &str, tags: &Vec<String>, allowed: &Vec<String>) -> (r: Result<(), ProcessingError>)
    ensures
        trim(name@).len() == 0 ==> (r matches Err(ProcessingError::ValidationError(m)) && m@
            == "Record name cannot be empty"@),
        trim(name@).len() > 0 ==> match tag_problem(string_views(tags@), string_views(allowed@)) {
            None => r is Ok,
            Some(msg) => r matches Err(ProcessingError::ValidationError(m)) && m@ == msg,
        },
{
    if is_blank(name) {
        return Err(ProcessingError::ValidationError("Record name cannot be empty".to_string()));
    }
    let ghost t = string_views(tags@);
    let ghost a = string_views(allowed@);
    let mut i: usize = 0;
    while i < tags.len()
        invariant
            i <= tags@.len(),
            t == string_views(tags@),
            a == string_views(allowed@),
            trim(name@).len() > 0,
            tag_problem(t.take(i as int), a) is None,
        decreases tags.len() - i,
    {
        assert(t.take(i + 1).drop_last() =~= t.take(i as int));
        assert(t.take(i + 1).last() == tags@[i as int]@);
        if !holds_text(allowed, tags[i].as_str()) {
            let x = concat_str("Tag '", tags[i].as_str());
            proof {
                lemma_tag_problem_prefix(t, a, i + 1);
            }
            return Err(ProcessingError::ValidationError(concat_str(x.as_str(), "' is not allowed")));
        }
        i += 1;
    }
    assert(t.take(tags@.len() as int) =~= t);
    Ok(())
}

/// A problem found in a prefix is the problem of the whole.
proof fn lemma_tag_problem_prefix(t: Seq<Seq<char>>, a: Seq<Seq<char>>, k: int)
    requires
        0 <= k <= t.len(),
        tag_problem(t.take(k), a) is Some,
    ensures
        tag_problem(t, a) == tag_problem(t.take(k), a),
    decreases t.len() - k,
{
    if k < t.len() {
        assert(t.take(k + 1).drop_last() =~= t.take(k));
        lemma_tag_problem_prefix(t, a, k + 1);
    } else {
        assert(t.take(k) =~= t);
    }
}

/// A record's name in capitals and its tags sorted, each once.
pub fn tidy_labels(name: &str, tags: &Vec<String>) -> (r: (String, Vec<String>))
    ensures
        r.0@ == uppercase(name@),
        strictly_sorted(string_views(r.1@)),
        forall|t: Seq<char>| #[trigger] string_views(r.1@).contains(t) <==> string_views(tags@).contains(t),
{
    (to_uppercase(name), sorted_unique(tags))
}

/// Counts of the records processed and of the failures by kind.
#[derive(Debug)]
pub struct ProcessingStats {
    pub records_processed: u64,
    pub validation_errors: u64,
    pub transformation_errors: u64,
}

impl Default for ProcessingStats {
    fn default() -> (s: Self)
        ensures
            s.records_processed == 0 && s.validation_errors == 0 && s.transformation_errors == 0,
    {
        ProcessingStats { records_processed: 0, validation_errors: 0, transformation_errors: 0 }
    }
}

impl ProcessingStats {
    /// Counts one more record taken up for processing.
    pub fn count_record(&mut self)
        requires
            old(self).records_processed < u64::MAX,
        ensures
            final(self).records_processed == old(self).records_processed + 1,
            final(self).validation_errors == old(self).validation_errors,
            final(self).transformation_errors == old(self).transformation_errors,
    {
        self.records_processed += 1;
    }

    /// Counts a failure by its kind: a validation error or a transformation
    /// error; other errors are not counted.
    pub fn count_failure(&mut self, e: &ProcessingError)
        requires
            old(self).validation_errors < u64::MAX,
            old(self).transformation_errors < u64::MAX,
        ensures
            final(self).records_processed == old(self).records_processed,
            final(self).validation_errors == old(self).validation_errors + if e is ValidationError {
                1int
            } else {
                0int
            },
            final(self).transformation_errors == old(self).transformation_errors + if e is TransformationError {
                1int
            } else {
                0int
            },
    {
        match e {
            ProcessingError::ValidationError(_) => {
                self.validation_errors += 1;
            },
            ProcessingError::TransformationError(_) => {
                self.transformation_errors += 1;
            },
            _ => {},
        }
    }
}

} // verus!
