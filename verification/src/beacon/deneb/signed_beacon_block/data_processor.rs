//! Accepts measurement records once each, after checking them, and keeps counts.
//!
//! A record's measurements are floating-point numbers; what the checks read of
//! them (how many there are, and where the first one that is not a number is)
//! is handed in as plain values.
use vstd::prelude::*;
use std::collections::HashSet;
use crate::numbers::signed_decimal_text;

verus! {

broadcast use vstd::std_specs::hash::group_hash_axioms;

/// What the checks read of a record: its identifier, its timestamp, how many
/// measurements it has and the position of the first measurement that is not a
/// number, if any.
#[derive(Debug, Clone, Copy, PartialEq, Eq, Structural)]
pub struct RecordFacts {
    pub id: u64,
    pub timestamp: i64,
    pub value_count: u64,
    pub first_nan: Option<usize>,
}

/// Why a record was refused.
#[derive(Debug, Clone, Copy, PartialEq, Eq, Structural)]
pub enum DataError {
    InvalidTimestamp(i64),
    EmptyValues,
    NaNValue(usize),
    DuplicateId(u64),
}

impl DataError {
    /// The text of the error.
    pub open spec fn text(&self) -> Seq<char> {
        match self {
            DataError::InvalidTimestamp(t) => "Invalid timestamp: "@ + signed_decimal_text(*t as int),
            DataError::EmptyValues => "Empty values array"@,
            DataError::NaNValue(i) => "NaN value detected at index "@ + signed_decimal_text(*i as int),
            DataError::DuplicateId(id) => "Duplicate record ID: "@ + signed_decimal_text(*id as int),
        }
    }

    /// The text of the error.
    pub fn message(&self) -> (m: String)
        ensures
            m@ == self.text(),
    {
        match self {
            DataError::InvalidTimestamp(t) => crate::text::concat_str(
                "Invalid timestamp: ",
                crate::numbers::signed_decimal(*t as i128).as_str(),
            ),
            DataError::EmptyValues => "Empty values array".to_string(),
            DataError::NaNValue(i) => crate::text::concat_str(
                "NaN value detected at index ",
                crate::numbers::signed_decimal(*i as i128).as_str(),
            ),
            DataError::DuplicateId(id) => crate::text::concat_str(
                "Duplicate record ID: ",
                crate::numbers::signed_decimal(*id as i128).as_str(),
            ),
        }
    }
}

/// Counts of the records seen.
#[derive(Debug, Clone, Copy, PartialEq, Eq, Structural)]
pub struct ProcessingStats {
    pub total_records: u64,
    pub valid_records: u64,
    pub invalid_records: u64,
    pub total_values: u64,
}

impl Default for ProcessingStats {
    fn default() -> (s: Self)
        ensures
            s == (ProcessingStats {
                total_records: 0,
                valid_records: 0,
                invalid_records: 0,
                total_values: 0,
            }),
    {
        ProcessingStats { total_records: 0, valid_records: 0, invalid_records: 0, total_values: 0 }
    }
}

/// What the checks say of a record that is not a duplicate.
pub open spec fn record_problem(r: RecordFacts) -> Option<DataError> {
    if r.timestamp < 0 {
        Some(DataError::InvalidTimestamp(r.timestamp))
    } else if r.value_count == 0 {
        Some(DataError::EmptyValues)
    } else {
        match r.first_nan {
            Some(i) => Some(DataError::NaNValue(i)),
            None => None,
        }
    }
}

/// What processing `r` answers when the identifiers `ids` were accepted before.
pub open spec fn process_result(ids: Set<u64>, r: RecordFacts) -> Result<(), DataError> {
    if ids.contains(r.id) {
        Err(DataError::DuplicateId(r.id))
    } else {
        match record_problem(r) {
            Some(e) => Err(e),
            None => Ok(()),
        }
    }
}

/// The identifiers accepted after processing `r`.
pub open spec fn ids_after(ids: Set<u64>, r: RecordFacts) -> Set<u64> {
    if process_result(ids, r) is Ok {
        ids.insert(r.id)
    } else {
        ids
    }
}

/// A record that was accepted is refused as a duplicate when it comes again, and
/// a refused record changes nothing that decides later answers.
pub proof fn lemma_accept_once(ids: Set<u64>, r: RecordFacts)
    ensures
        process_result(ids, r) is Ok ==> process_result(ids_after(ids, r), r) == Err::<(), DataError>(
            DataError::DuplicateId(r.id),
        ),
        process_result(ids, r) is Err ==> ids_after(ids, r) == ids,
{
}

/// Checks records and remembers those accepted.
pub struct DataProcessor {
    processed_ids: HashSet<u64>,
    stats: ProcessingStats,
}

impl DataProcessor {
    /// The identifiers accepted so far.
    pub closed spec fn accepted(&self) -> Set<u64> {
        self.processed_ids@
    }

    /// The counts so far.
    pub closed spec fn counts(&self) -> ProcessingStats {
        self.stats
    }

    /// A processor that has seen nothing.
    pub fn new() -> (p: DataProcessor)
        ensures
            p.accepted() == Set::<u64>::empty(),
            p.counts() == (ProcessingStats {
                total_records: 0,
                valid_records: 0,
                invalid_records: 0,
                total_values: 0,
            }),
    {
        DataProcessor { processed_ids: HashSet::new(), stats: ProcessingStats::default() }
    }

    /// Checks `record`, accepting it when it is new and sound; every record is
    /// counted, a duplicate as invalid, an accepted one as valid with its values.
    pub fn process_record(&mut self, record: &RecordFacts) -> (r: Result<(), DataError>)
        requires
            old(self).counts().total_records < u64::MAX,
            old(self).counts().invalid_records < u64::MAX,
            old(self).counts().valid_records < u64::MAX,
            old(self).counts().total_values + record.value_count <= u64::MAX,
        ensures
            r == process_result(old(self).accepted(), *record),
            final(self).accepted() == ids_after(old(self).accepted(), *record),
            final(self).counts().total_records == old(self).counts().total_records + 1,
            final(self).counts().invalid_records == old(self).counts().invalid_records + (
            if old(self).accepted().contains(record.id) {
                1int
            } else {
                0int
            }),
            final(self).counts().valid_records == old(self).counts().valid_records + (if r is Ok {
                1int
            } else {
                0int
            }),
            final(self).counts().total_values == old(self).counts().total_values + (if r is Ok {
                record.value_count as int
            } else {
                0int
            }),
    {
        self.stats.total_records = self.stats.total_records + 1;
        if self.processed_ids.contains(&record.id) {
            self.stats.invalid_records = self.stats.invalid_records + 1;
            return Err(DataError::DuplicateId(record.id));
        }
        match Self::validate_record(record) {
            Err(e) => return Err(e),
            Ok(()) => {},
        }
        self.processed_ids.insert(record.id);
        self.stats.valid_records = self.stats.valid_records + 1;
        self.stats.total_values = self.stats.total_values + record.value_count;
        Ok(())
    }

    /// The checks made of a record that is not a duplicate.
    fn validate_record(record: &RecordFacts) -> (r: Result<(), DataError>)
        ensures
            match record_problem(*record) {
                Some(e) => r == Err::<(), DataError>(e),
                None => r is Ok,
            },
    {
        if record.timestamp < 0 {
            return Err(DataError::InvalidTimestamp(record.timestamp));
        }
        if record.value_count == 0 {
            return Err(DataError::EmptyValues);
        }
        match record.first_nan {
            Some(i) => Err(DataError::NaNValue(i)),
            None => Ok(()),
        }
    }

    /// The counts so far.
    pub fn get_stats(&self) -> (s: &ProcessingStats)
        ensures
            *s == self.counts(),
    {
        &self.stats
    }

    /// Forgets everything seen.
    pub fn reset(&mut self)
        ensures
            final(self).accepted() == Set::<u64>::empty(),
            final(self).counts() == (ProcessingStats {
                total_records: 0,
                valid_records: 0,
                invalid_records: 0,
                total_values: 0,
            }),
    {
        self.processed_ids.clear();
        self.stats = ProcessingStats::default();
    }
}

} // verus!
