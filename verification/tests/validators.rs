use datakit::beacon::deneb::signed_beacon_block::data_validator::{DataValidator, ValidationError};

#[test]
fn test_validate_string() {
    assert!(DataValidator::validate_string("hello").is_ok());
    assert_eq!(DataValidator::validate_string(""), Err(ValidationError::EmptyString));
    assert_eq!(DataValidator::validate_string("   "), Err(ValidationError::EmptyString));
}

#[test]
fn test_validate_positive_number() {
    assert!(DataValidator::validate_positive_number(42).is_ok());
    assert_eq!(DataValidator::validate_positive_number(-5), Err(ValidationError::NegativeNumber));
}

#[test]
fn test_validate_range() {
    assert!(DataValidator::validate_range(10, 0, 100).is_ok());
    assert_eq!(
        DataValidator::validate_range(-5, 0, 100),
        Err(ValidationError::OutOfRange { min: 0, max: 100, value: -5 })
    );
}

#[test]
fn test_validate_email() {
    assert!(DataValidator::validate_email("test@example.com").is_ok());
    assert!(DataValidator::validate_email("user@domain.co.uk").is_ok());
    assert_eq!(
        DataValidator::validate_email("invalid-email"),
        Err(ValidationError::InvalidFormat("Email must contain '@' and '.'".to_string()))
    );
}

#[test]
fn validation_error_messages() {
    assert_eq!(ValidationError::EmptyString.message(), "String cannot be empty");
    assert_eq!(
        ValidationError::OutOfRange { min: 1, max: 5, value: 9 }.message(),
        "Value 9 is outside range [1, 5]"
    );
}
