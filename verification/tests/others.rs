use datakit::era1::file_encryption_utility::{validate_key, XorCipher};
use datakit::era1::log_processor::{process_log_file, LogProcessor};
use datakit::geth_batch::data_cleaner::{clean_dataset, DataCleaner};
use datakit::beacon::deneb::file_encryptor::{xor_decrypt_file, xor_encrypt_file};
use datakit::infura_batch::csv_processor::CsvFilter;
use datakit::crypto_utils::{generate_api_key, generate_secure_token, generate_session_id};
use datakit::mainnet::secure_key_generator::{EncryptionKey, KEY_LENGTH};
use datakit::hex_codec::HexError;
use datakit::network_health_check::NetworkHealth;
use datakit::beacon::deneb::signed_beacon_block::ssz_random::case_1::secure_hash_verifier::{lower_hex, FileHashVerifier};
use datakit::beacon::deneb::signed_beacon_block::data_processor::{DataError, DataProcessor, RecordFacts};
use datakit::numbers::signed_decimal;

#[test]
fn test_key_validation() {
    assert!(validate_key("ValidKey123"));
    assert!(!validate_key("short"));
    assert!(!validate_key(""));
}

#[test]
fn test_xor_cipher_symmetry() {
    let original_data = b"Hello, World! This is a test message.";
    let mut cipher = XorCipher::new("SuperSecretKey123!");
    let encrypted = cipher.encrypt_file(original_data);
    assert_ne!(encrypted, original_data.to_vec());
    let decrypted = cipher.decrypt_file(&encrypted);
    assert_eq!(original_data.to_vec(), decrypted);
}

#[test]
fn xor_cipher_known_bytes() {
    let mut cipher = XorCipher::new("ab");
    assert_eq!(cipher.encrypt_file(&[0, 0, 0]), vec![b'a', b'b', b'a']);
    assert_eq!(cipher.encrypt_file(&[]), Vec::<u8>::new());
}

#[test]
fn test_xor_encryption() {
    let data = b"Hello, Rust!";
    let key = b"secret";
    let encrypted = xor_encrypt_file(data, key);
    assert_eq!(encrypted[0], b'H' ^ b's');
    assert_eq!(xor_decrypt_file(&encrypted, key), data.to_vec());
}

#[test]
fn log_processor_picks_error_lines() {
    let log = "INFO start\nERROR disk full\nwarn: slow\nan error here\r\nError upper-lower\n";
    let errors = process_log_file(log);
    assert_eq!(errors, vec!["ERROR disk full".to_string(), "an error here".to_string()]);
    let p = LogProcessor::new("app.log");
    assert_eq!(p.log_path(), "app.log");
    assert_eq!(p.count_errors(log), 2);
}

#[test]
fn test_clean_dataset() {
    let data = vec![1, 2, 2, 3, 0, 4, 0, 5];
    let cleaned = clean_dataset(data, 0);
    assert_eq!(cleaned, vec![1, 2, 3, 4, 5]);
}

#[test]
fn data_cleaner_test_remove_null_values() {
    let mut cleaner = DataCleaner::new(vec!["a", "", "b", "", "c"]);
    cleaner.remove_null_values("");
    assert_eq!(cleaner.get_data(), &vec!["a", "b", "c"]);
}

#[test]
fn deduplicate_keeps_first() {
    let mut cleaner = DataCleaner::new(vec![3, 1, 3, 2, 1]);
    cleaner.deduplicate();
    assert_eq!(cleaner.into_data(), vec![3, 1, 2]);
    let twice = clean_dataset(clean_dataset(vec![5, 5, 0, 6], 0), 0);
    assert_eq!(twice, vec![5, 6]);
}

#[test]
fn test_filter_rows() {
    let text = "name,age,city\nAlice,30,London\nBob,25,Paris\nCharlie,35,London\n";
    let filter = CsvFilter::new(',', true);
    let result = filter.filter_rows(text, |fields| fields.get(2).map(|city| city == "London").unwrap_or(false));
    assert_eq!(result.len(), 2);
    assert_eq!(result[0][0], "Alice");
    assert_eq!(result[1][0], "Charlie");
}

#[test]
fn test_count_matching_rows() {
    let text = "product,price,stock\nWidget,19.99,100\nGadget,29.99,0\nThingy,9.99,50\n";
    let filter = CsvFilter::new(',', true);
    let count = filter.count_matching_rows(text, |fields| {
        fields.get(2).and_then(|s| s.parse::<i32>().ok()).map(|stock| stock > 0).unwrap_or(false)
    });
    assert_eq!(count, 2);
}

#[test]
fn csv_rows_are_trimmed() {
    let filter = CsvFilter::new(';', false);
    let rows = filter.rows(" a ; b ;\n\nc");
    assert_eq!(rows, vec![vec!["a".to_string(), "b".to_string(), "".to_string()], vec!["".to_string()], vec!["c".to_string()]]);
}

#[test]
fn test_token_length() {
    let token = generate_secure_token(16);
    assert_eq!(token.len(), 16);
    assert!(token.chars().all(|c| c.is_ascii_alphanumeric()));
}

#[test]
fn test_api_key_format() {
    let key = generate_api_key();
    assert!(key.starts_with("sk_"));
    assert_eq!(key.len(), 35);
}

#[test]
fn test_session_id_length() {
    assert_eq!(generate_session_id().len(), 64);
}

#[test]
fn test_key_generation() {
    let key1 = EncryptionKey::generate();
    let key2 = EncryptionKey::generate();
    assert_ne!(key1, key2);
    assert_eq!(key1.as_bytes().len(), KEY_LENGTH);
}

#[test]
fn test_hex_conversion() {
    let key = EncryptionKey::generate();
    let hex_str = key.to_hex();
    assert_eq!(hex_str.len(), 64);
    let restored_key = EncryptionKey::from_hex(&hex_str).unwrap();
    assert_eq!(key, restored_key);
}

#[test]
fn test_invalid_hex() {
    assert_eq!(EncryptionKey::from_hex("invalid").err(), Some(HexError::OddLength));
    assert_eq!(
        EncryptionKey::from_hex("zz").err(),
        Some(HexError::InvalidHexCharacter { c: 'z', index: 0 })
    );
    assert_eq!(EncryptionKey::from_hex("00ff").err(), Some(HexError::InvalidStringLength));
    let k = EncryptionKey::from_hex(&"0A".repeat(32)).unwrap();
    assert_eq!(k.to_hex(), "0a".repeat(32));
    assert_eq!(k.as_ref()[0], 10);
}

#[test]
fn sha256_known_digest() {
    assert_eq!(
        FileHashVerifier::calculate_sha256(b"abc"),
        "ba7816bf8f01cfea414140de5dae2223b00361a396177a9cb410ff61f20015ad"
    );
    assert!(FileHashVerifier::verify_file_integrity(
        b"abc",
        "BA7816BF8F01CFEA414140DE5DAE2223B00361A396177A9CB410FF61F20015AD"
    ));
    assert!(!FileHashVerifier::verify_file_integrity(b"abc", "invalidhash123"));
    assert!(FileHashVerifier::compare_files(b"Test data", b"Test data"));
    assert!(!FileHashVerifier::compare_files(b"Data 1", b"Data 2"));
    assert_eq!(lower_hex(&[0, 15, 171]), "000fab");
}

#[test]
fn network_health_decisions() {
    let h = NetworkHealth::new(2);
    assert_eq!(h.timeout_secs(), 2);
    assert_eq!(NetworkHealth::address("localhost", 80), "localhost:80");
    assert_eq!(h.check_port(Ok(vec![false, true])), Ok(true));
    assert_eq!(h.check_port(Ok(vec![false])), Ok(false));
    assert_eq!(h.check_port(Ok(vec![])), Err("No addresses resolved".to_string()));
    assert_eq!(h.check_port(Err("boom".to_string())), Err("DNS resolution failed: boom".to_string()));
    let outcomes = vec![Ok(true), Err("x".to_string()), Ok(false)];
    assert_eq!(h.check_multiple_ports(&[22, 80, 443], &outcomes), vec![(22, true), (80, false), (443, false)]);
    assert!(h.validate_host(&Ok(false)));
    assert!(!h.validate_host(&Err("x".to_string())));
    assert_eq!(NetworkHealth::validation_port(), 80);
}

fn record(id: u64, timestamp: i64, value_count: u64, first_nan: Option<usize>) -> RecordFacts {
    RecordFacts { id, timestamp, value_count, first_nan }
}

#[test]
fn data_processor_test_valid_record_processing() {
    let mut processor = DataProcessor::new();
    assert!(processor.process_record(&record(1, 1625097600, 3, None)).is_ok());
    assert_eq!(processor.get_stats().valid_records, 1);
    assert_eq!(processor.get_stats().total_values, 3);
}

#[test]
fn test_duplicate_id() {
    let mut processor = DataProcessor::new();
    let r = record(1, 1625097600, 1, None);
    assert!(processor.process_record(&r).is_ok());
    assert_eq!(processor.process_record(&r), Err(DataError::DuplicateId(1)));
    assert_eq!(processor.get_stats().invalid_records, 1);
    assert_eq!(processor.get_stats().total_records, 2);
}

#[test]
fn record_checks_in_order() {
    let mut processor = DataProcessor::new();
    assert_eq!(processor.process_record(&record(2, -1, 0, Some(0))), Err(DataError::InvalidTimestamp(-1)));
    assert_eq!(processor.process_record(&record(2, 5, 0, None)), Err(DataError::EmptyValues));
    assert_eq!(processor.process_record(&record(2, 5, 4, Some(2))), Err(DataError::NaNValue(2)));
    assert_eq!(processor.get_stats().invalid_records, 0);
    assert_eq!(DataError::NaNValue(2).message(), "NaN value detected at index 2");
    assert_eq!(DataError::InvalidTimestamp(-7).message(), "Invalid timestamp: -7");
    processor.reset();
    assert_eq!(processor.get_stats().total_records, 0);
    assert_eq!(signed_decimal(-120), "-120");
}

#[test]
fn test_invalid_host() {
    let checker = NetworkHealth::new(1);
    let lookup: Result<Vec<bool>, String> =
        Err("failed to lookup address information: Name or service not known".to_string());
    let result = checker.check_port(lookup);
    assert!(result.is_err());
}
