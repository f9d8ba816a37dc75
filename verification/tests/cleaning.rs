use datakit::beacon::deneb::signed_beacon_block::ssz_random::case_0::data_cleaner::DataCleaner as TextCleaner;
use datakit::beacon::deneb::signed_beacon_block::ssz_random::case_0::log_analyzer::LogAnalyzer;
use datakit::beacon::deneb::signed_beacon_block::ssz_random::data_cleaner::{clean_labels, labels_valid};
use datakit::data_cleaner::{clean_record, clean_records, normalize_email, validate_age, Record as Person};
use datakit::era1::data_cleaner::DataCleaner as NullCleaner;
use datakit::era1::record_checks::{ProcessingError as Era1Error, RecordFacts};
use datakit::geth_batch::data_cleaner::DataCleaner as GenericCleaner;
use datakit::infura_batch::data_cleaner::DataCleaner as UpperCleaner;
use datakit::infura_batch::record_rules::{check_labels, check_new_record, tidy_labels, ProcessingError, ProcessingStats, ValidationError};
use datakit::mainnet::data_checks::{add_tag, validate_record, DataError};
use datakit::text_order::sorted_unique;

fn strings(v: &[&str]) -> Vec<String> {
    v.iter().map(|s| s.to_string()).collect()
}

#[test]
fn test_data_cleaning() {
    let raw_data = strings(&["  Apple  ", "apple", "Banana", "", "banana", "  CHERRY  "]);
    let mut cleaner = TextCleaner::new(raw_data);
    let result = cleaner.process();
    assert_eq!(result.len(), 3);
    assert!(result.contains(&"apple".to_string()));
    assert!(result.contains(&"banana".to_string()));
    assert!(result.contains(&"cherry".to_string()));
}

#[test]
fn text_cleaner_steps() {
    let mut cleaner = TextCleaner::new(strings(&["b", "a", "b", ""]));
    cleaner.deduplicate().filter_empty();
    assert_eq!(cleaner.get_data(), &strings(&["b", "a"]));
    cleaner.normalize();
    assert_eq!(cleaner.get_data(), &strings(&["b", "a"]));
}

#[test]
fn test_deduplication() {
    let mut cleaner = UpperCleaner::new(strings(&["apple", "banana", "apple", "cherry"]));
    cleaner.deduplicate();
    assert_eq!(cleaner.count(), 3);
    assert_eq!(cleaner.get_data(), &strings(&["apple", "banana", "cherry"]));
}

#[test]
fn data_cleaner_test_validation() {
    let cleaner = UpperCleaner::new(strings(&["valid", "", "also valid"]));
    let result = cleaner.validate_non_empty();
    assert!(result.is_err());
    assert_eq!(result.unwrap_err(), "Empty string found at index 1");
    assert!(UpperCleaner::new(strings(&["a", " b "])).validate_non_empty().is_ok());
    assert_eq!(
        UpperCleaner::new(strings(&["a", "b", "c", "d", "e", "f", "g", "h", "i", "j", "   "])).validate_non_empty().unwrap_err(),
        "Empty string found at index 10"
    );
}

#[test]
fn test_uppercase_transformation() {
    let mut cleaner = UpperCleaner::new(strings(&["hello", "world"]));
    cleaner.transform_to_uppercase();
    assert_eq!(cleaner.get_data(), &strings(&["HELLO", "WORLD"]));
}

#[test]
fn test_chain_operations() {
    let data = strings(&["apple", "", "banana", "apple", ""]);
    let mut cleaner = NullCleaner::new(data);
    cleaner.remove_null_values().deduplicate();
    assert_eq!(cleaner.get_data().len(), 2);
}

#[test]
fn data_cleaner_test_deduplicate() {
    let data = vec![1, 2, 2, 3, 1, 4];
    let mut cleaner = NullCleaner::new(data);
    cleaner.deduplicate();
    assert_eq!(cleaner.get_data().len(), 4);
}

#[test]
fn nulls_removed_from_strings_only() {
    let mut cleaner = NullCleaner::new(strings(&["valid", "", "another", ""]));
    cleaner.remove_null_values();
    assert_eq!(cleaner.get_data().len(), 2);
    let mut numbers = NullCleaner::new(vec![0u64, 0, 1]);
    numbers.remove_null_values();
    assert_eq!(numbers.into_data(), vec![0, 0, 1]);
}

#[test]
fn geth_deduplicate_floats() {
    let mut cleaner = GenericCleaner::new(vec![1.5, 2.0, 1.5, 3.0, 2.0]);
    cleaner.deduplicate();
    let mut result = cleaner.into_data();
    result.sort_by(|a, b| a.partial_cmp(b).unwrap());
    assert_eq!(result, vec![1.5, 2.0, 3.0]);
}

#[test]
fn person_records_cleaned() {
    assert_eq!(normalize_email("  John.Doe@Example.COM "), "john.doe@example.com");
    assert_eq!(validate_age(0), None);
    assert_eq!(validate_age(119), Some(119));
    assert_eq!(validate_age(120), None);
    let r = clean_record(Person { id: 1, name: " Ann ".to_string(), email: "A@B.C".to_string(), age: 30 }).unwrap();
    assert_eq!((r.name.as_str(), r.email.as_str()), ("Ann", "a@b.c"));
    let kept = clean_records(vec![
        Person { id: 1, name: "a".to_string(), email: "x".to_string(), age: 200 },
        Person { id: 2, name: "b".to_string(), email: "y".to_string(), age: 5 },
    ]);
    assert_eq!(kept.len(), 1);
    assert_eq!(kept[0].id, 2);
}

#[test]
fn record_labels_cleaned() {
    assert_eq!(clean_labels("  ", "x"), None);
    assert_eq!(clean_labels(" Name ", " Cat A "), Some(("Name".to_string(), "cat a".to_string())));
    assert!(labels_valid("a", "b"));
    assert!(!labels_valid("a", ""));
}

#[test]
fn mainnet_record_validation() {
    let ok = validate_record(1, 1234567890, &vec![("temp".to_string(), true)]);
    assert!(ok.is_ok());
    let err = validate_record(0, 1234567890, &vec![("temp".to_string(), true)]).unwrap_err();
    assert_eq!(err.message(), "Validation error: ID cannot be zero");
    match validate_record(1, 5, &vec![("t".to_string(), false)]) {
        Err(DataError::ValidationError(m)) => assert_eq!(m, "Value for t is not finite"),
        _ => panic!("expected a validation error"),
    }
    assert_eq!(DataError::TransformationFailed.message(), "Transformation failed");
    let mut tags = strings(&["a"]);
    add_tag(&mut tags, "processed".to_string());
    add_tag(&mut tags, "processed".to_string());
    assert_eq!(tags, strings(&["a", "processed"]));
}

#[test]
fn era1_record_checks() {
    let facts = RecordFacts { id: 1, timestamp: 1234567890, entries: vec![("temperature".to_string(), true)] };
    assert!(facts.validate().is_ok());
    let facts = RecordFacts { id: 0, timestamp: 1234567890, entries: vec![("temperature".to_string(), true)] };
    assert_eq!(facts.validate().unwrap_err().message(), "Validation failed: ID cannot be zero");
    let facts = RecordFacts { id: 2, timestamp: 1, entries: vec![] };
    assert_eq!(facts.validate().unwrap_err().message(), "Validation failed: Values cannot be empty");
    let facts = RecordFacts { id: 2, timestamp: 1, entries: vec![("v".to_string(), false)] };
    assert_eq!(facts.validate().unwrap_err().message(), "Validation failed: Value for key 'v' must be finite");
    assert_eq!(Era1Error::InvalidFormat.message(), "Invalid data format");
}

#[test]
fn test_invalid_id() {
    assert!(matches!(check_new_record(0, true, "test"), Err(ValidationError::InvalidId)));
}

#[test]
fn test_valid_record_creation() {
    let category = check_new_record(1, (0.0..=1000.0).contains(&500.0), "test").unwrap();
    assert_eq!(category, "test");
    assert!(matches!(check_new_record(1, false, "test"), Err(ValidationError::InvalidValue)));
    assert!(matches!(check_new_record(1, true, "  "), Err(ValidationError::EmptyCategory)));
    assert_eq!(ValidationError::InvalidValue.message(), "Value must be between 0.0 and 1000.0");
}

#[test]
fn labels_checked_and_tidied() {
    let allowed = strings(&["important", "normal", "low"]);
    assert!(check_labels("test record", &strings(&["important"]), &allowed).is_ok());
    match check_labels("", &vec![], &allowed) {
        Err(ProcessingError::ValidationError(m)) => assert_eq!(m, "Record name cannot be empty"),
        _ => panic!("expected a validation error"),
    }
    match check_labels("x", &strings(&["low", "bad"]), &allowed) {
        Err(ProcessingError::ValidationError(m)) => assert_eq!(m, "Tag 'bad' is not allowed"),
        _ => panic!("expected a validation error"),
    }
    let (name, tags) = tidy_labels("test record", &strings(&["normal", "important", "normal"]));
    assert_eq!(name, "TEST RECORD");
    assert_eq!(tags, strings(&["important", "normal"]));
    assert_eq!(ProcessingError::TransformationError("x".to_string()).message(), "Transformation error: x");
}

#[test]
fn stats_count_by_kind() {
    let mut stats = ProcessingStats::default();
    stats.count_record();
    stats.count_record();
    stats.count_failure(&ProcessingError::ValidationError("a".to_string()));
    stats.count_failure(&ProcessingError::InvalidData("b".to_string()));
    assert_eq!((stats.records_processed, stats.validation_errors, stats.transformation_errors), (2, 1, 0));
}

#[test]
fn sorting_texts_by_string_order() {
    assert_eq!(sorted_unique(&strings(&["b", "a", "ab", "a", "B"])), strings(&["B", "a", "ab", "b"]));
}

fn log_lines(v: &[&str]) -> Result<Vec<Result<String, String>>, String> {
    Ok(v.iter().map(|l| Ok(l.to_string())).collect())
}

#[test]
fn log_analyzer_counts_levels() {
    let mut a = LogAnalyzer::new();
    a.parse_log_file(log_lines(&[
        "2024-01-01 10:00:00 [INFO] started",
        "garbage",
        "2024-01-01 10:00:01 [ERROR] failed",
        "2024-01-01 10:00:02 [ERROR] failed again",
    ]))
    .unwrap();
    assert_eq!(a.get_total_entries(), 3);
    assert_eq!(a.get_level_summary(), vec![("ERROR".to_string(), 2), ("INFO".to_string(), 1)]);
    let errors = a.filter_by_level("ERROR");
    assert_eq!(errors.len(), 2);
    assert_eq!(errors[0].message, "failed");
    assert_eq!(errors[1].timestamp, "2024-01-01 10:00:02");
    assert_eq!(a.parse_log_file(Err("missing".to_string())).unwrap_err(), "missing");
}
