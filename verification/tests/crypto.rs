use datakit::beacon::deneb::signed_beacon_block::ssz_random::case_1::secure_hash_verifier::FileHashVerifier;
use datakit::beacon::deneb::signed_beacon_block::ssz_random::file_encryption::{decrypt_file as gcm_open_file, encrypt_file as gcm_seal_file};
use datakit::beacon::deneb::signed_beacon_block::ssz_random::file_encryption::with_key::{decrypt_file as cbc_open_file, encrypt_file as cbc_seal_file, generate_key};
use datakit::geth_batch::file_encryptor::FileEncryptor as PbkdfEncryptor;
use datakit::infura_batch::file_encryption_utility::FileEncryptor;
use datakit::infura_batch::file_encryption_utility::salt_text::{decrypt_file as text_salt_decrypt, derive_key, encrypt_file as text_salt_encrypt};
use datakit::infura_batch::file_encryption_utility::salt_bytes::{
    decrypt_file as bytes_salt_decrypt, encrypt_file as bytes_salt_encrypt, generate_password_hash, verify_password,
};
use datakit::beacon::deneb::secure_password_generator::generate_password;
use datakit::crypto_utils::generate_secure_token;
use datakit::weather_cache::{repos_url, weather_url, WeatherCache, WeatherError};

#[test]
fn test_identical_files() {
    let test_data = b"Test data for hash verification";
    assert!(FileHashVerifier::compare_files(test_data, test_data));
}

#[test]
fn test_different_files() {
    assert!(!FileHashVerifier::compare_files(b"Data 1", b"Data 2"));
}

#[test]
fn test_hash_verification() {
    let contents = b"Verification test";
    let hash = FileHashVerifier::calculate_sha256(contents);
    assert!(FileHashVerifier::verify_file_integrity(contents, &hash));
    assert!(!FileHashVerifier::verify_file_integrity(contents, "invalidhash123"));
}

#[test]
fn file_encryption_test_encryption_roundtrip() {
    let original_data = b"Test secret data for encryption";
    let encrypted = gcm_seal_file(original_data).unwrap();
    assert_eq!(encrypted.len(), 32 + 12 + original_data.len() + 16);
    assert_eq!(&encrypted[32..44], b"unique_nonce");
    let decrypted = gcm_open_file(&encrypted).unwrap();
    assert_eq!(original_data.as_slice(), decrypted.as_slice());
    assert_eq!(gcm_open_file(&encrypted[..40]).unwrap_err(), "Invalid encrypted file format");
    let mut tampered = encrypted.clone();
    let last = tampered.len() - 1;
    tampered[last] ^= 1;
    assert_eq!(gcm_open_file(&tampered).unwrap_err(), "Decryption failed: aead::Error");
}

#[test]
fn file_encryption_test_encryption_decryption() {
    let test_data = b"Hello, this is a secret message!";
    let key = generate_key();
    let encrypted = cbc_seal_file(test_data, &key).unwrap();
    assert_eq!(encrypted.len(), 16 + 48);
    let decrypted = cbc_open_file(&encrypted, &key).unwrap();
    assert_eq!(decrypted, test_data);
    assert_eq!(cbc_seal_file(test_data, &key[..5]).unwrap_err(), "Key must be 32 bytes");
    assert_eq!(cbc_open_file(&encrypted[..10], &key).unwrap_err(), "File too short to contain IV");
}

#[test]
fn file_encryptor_test_encryption_roundtrip() {
    let encryptor = PbkdfEncryptor::new("secure_password_123".to_string());
    let original_data = b"Secret data that needs protection";
    let encrypted = encryptor.encrypt_file(original_data);
    let decrypted = encryptor.decrypt_file(&encrypted).unwrap();
    assert_eq!(original_data.as_slice(), decrypted.as_slice());
    assert_eq!(encryptor.decrypt_file(&encrypted[..20]).unwrap_err(), "Invalid encrypted file format");
}

#[test]
fn file_encryption_utility_test_encryption_decryption() {
    let encryptor = FileEncryptor::new("secure_password_123").unwrap();
    let original_content = b"Test data for encryption and decryption";
    let encrypted = encryptor.encrypt_file(original_content).unwrap();
    let decrypted = encryptor.decrypt_file(&encrypted).unwrap();
    assert_eq!(original_content.to_vec(), decrypted);
    assert_eq!(encryptor.decrypt_file(&encrypted[..5]).unwrap_err(), "Invalid encrypted file format");
}

#[test]
fn test_encrypt_decrypt_cycle() {
    let test_data = b"Test encryption and decryption data";
    let password = "secure_password_123";
    let enc_result = text_salt_encrypt(test_data, password).unwrap();
    let decrypted = text_salt_decrypt(&enc_result.ciphertext, password, &enc_result.salt, &enc_result.nonce).unwrap();
    assert_eq!(decrypted, test_data);
}

#[test]
fn test_wrong_password_fails() {
    let test_data = b"Sensitive information";
    let enc_result = text_salt_encrypt(test_data, "correct_password").unwrap();
    let result = text_salt_decrypt(&enc_result.ciphertext, "wrong_password", &enc_result.salt, &enc_result.nonce);
    assert!(result.is_err());
    assert!(derive_key("pw", "!").unwrap_err().starts_with("Invalid salt: "));
}

#[test]
fn salt_bytes_cycle_and_hashes() {
    let enc = bytes_salt_encrypt(b"data", "pw").unwrap();
    assert_eq!(bytes_salt_decrypt(&enc.ciphertext, "pw", &enc.salt, &enc.nonce).unwrap(), b"data");
    assert_eq!(bytes_salt_decrypt(&enc.ciphertext, "other", &enc.salt, &enc.nonce).unwrap_err(), "aead::Error");
    let hash = generate_password_hash("pw").unwrap();
    assert_eq!(verify_password("pw", &hash).unwrap(), true);
    assert_eq!(verify_password("px", &hash).unwrap(), false);
    assert!(verify_password("pw", "not a hash").is_err());
}

#[test]
fn test_password_length() {
    let password = generate_password(12, true, true, true);
    assert_eq!(password.len(), 12);
}

#[test]
fn test_lowercase_only() {
    let password = generate_password(8, false, false, false);
    assert!(password.chars().all(|c| c.is_lowercase()));
}

#[test]
fn test_character_variety() {
    let password = generate_password(20, true, true, true);
    let has_upper = password.chars().any(|c| c.is_uppercase());
    let has_digit = password.chars().any(|c| c.is_digit(10));
    let has_symbol = password.chars().any(|c| "!@#$%^&*()_+-=[]{}|;:,.<>?".contains(c));
    assert!(has_upper);
    assert!(has_digit);
    assert!(has_symbol);
}

#[test]
fn test_unique_tokens() {
    let token1 = generate_secure_token(16);
    let token2 = generate_secure_token(16);
    assert_ne!(token1, token2);
}

#[test]
fn weather_cache_expires() {
    let mut cache: WeatherCache<u32> = WeatherCache::new(300);
    assert_eq!(cache.get("London", 0), None);
    cache.insert("London".to_string(), 15, 1_000);
    assert_eq!(cache.get("London", 1_000), Some(&15));
    assert_eq!(cache.get("London", 1_000 + 299_999_999_999), Some(&15));
    assert_eq!(cache.get("London", 1_000 + 300_000_000_000), None);
    assert_eq!(cache.get("London", 999), None);
    cache.insert("London".to_string(), 16, 2_000);
    assert_eq!(cache.get("London", 2_000), Some(&16));
    assert_eq!(
        weather_url("London", "k"),
        "https://api.openweathermap.org/data/2.5/weather?q=London&appid=k&units=metric"
    );
    assert_eq!(repos_url("rust-lang"), "https://api.github.com/users/rust-lang/repos");
    assert_eq!(WeatherError::InvalidResponse.message(), "Invalid API response");
}

#[test]
fn empty_password_is_accepted() {
    assert!(FileEncryptor::new("").is_ok());
    let hash = generate_password_hash("").unwrap();
    assert_eq!(verify_password("", &hash).unwrap(), true);
}

#[test]
fn salt_text_is_checked() {
    assert_eq!(derive_key("pw", "abc").err(), Some("Invalid salt: salt invalid: value to short".to_string()));
    assert_eq!(derive_key("pw", &"a".repeat(65)).err(), Some("Invalid salt: salt invalid: value to long".to_string()));
    assert_eq!(
        derive_key("pw", "abcd!efgh").err(),
        Some("Invalid salt: salt invalid: contains invalid character: '!'".to_string())
    );
    assert_eq!(derive_key("pw", "c2FsdHNhbHQ").unwrap().len(), 32);
}
