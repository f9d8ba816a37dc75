//! Field validators that report why a value is refused.
use vstd::prelude::*;
use crate::text::{trim, is_blank, contains_char, concat_str};
use crate::numbers::{signed_decimal, signed_decimal_text};

verus! {

broadcast use vstd::string::group_string_axioms;

/// Why a value was refused.
#[derive(Debug, PartialEq)]
pub enum ValidationError {
    EmptyString,
    NegativeNumber,
    OutOfRange { min: i32, max: i32, value: i32 },
    InvalidFormat(String),
}

impl ValidationError {
    /// The text of the error.
    pub open spec fn text(&self) -> Seq<char> {
        match self {
            ValidationError::EmptyString => "String cannot be empty"@,
            ValidationError::NegativeNumber => "Number cannot be negative"@,
            ValidationError::OutOfRange { min, max, value } => "Value "@ + signed_decimal_text(
                *value as int,
            ) + " is outside range ["@ + signed_decimal_text(*min as int) + ", "@
                + signed_decimal_text(*max as int) + "]"@,
            ValidationError::InvalidFormat(msg) => "Invalid format: "@ + msg@,
        }
    }

    /// The text of the error.
    pub fn message(&self) -> (m: String)
        ensures
            m@ == self.text(),
    {
        match self {
            ValidationError::EmptyString => "String cannot be empty".to_string(),
            ValidationError::NegativeNumber => "Number cannot be negative".to_string(),
            ValidationError::OutOfRange { min, max, value } => {
                let a = concat_str("Value ", signed_decimal(*value as i128).as_str());
                let b = concat_str(a.as_str(), " is outside range [");
                let c = concat_str(b.as_str(), signed_decimal(*min as i128).as_str());
                let d = concat_str(c.as_str(), ", ");
                let e = concat_str(d.as_str(), signed_decimal(*max as i128).as_str());
                concat_str(e.as_str(), "]")
            },
            ValidationError::InvalidFormat(msg) => concat_str("Invalid format: ", msg.as_str()),
        }
    }
}

/// The message given for an e-mail address without `@` or `.`.
pub open spec fn email_message() -> Seq<char> {
    "Email must contain '@' and '.'"@
}

/// Validators for single fields.
pub struct DataValidator;

impl DataValidator {
    /// Refuses a string that is empty or only whitespace.
    pub fn validate_string(input: &str) -> (r: Result<(), ValidationError>)
        ensures
            trim(input@).len() == 0 <==> r == Err::<(), ValidationError>(
                ValidationError::EmptyString,
            ),
            trim(input@).len() != 0 <==> r is Ok,
    {
        if is_blank(input) {
            return Err(ValidationError::EmptyString);
        }
        Ok(())
    }

    /// Refuses a negative number.
    pub fn validate_positive_number(num: i32) -> (r: Result<(), ValidationError>)
        ensures
            num < 0 <==> r == Err::<(), ValidationError>(ValidationError::NegativeNumber),
            num >= 0 <==> r is Ok,
    {
        if num < 0 {
            return Err(ValidationError::NegativeNumber);
        }
        Ok(())
    }

    /// Refuses a number outside `min..=max`.
    pub fn validate_range(num: i32, min: i32, max: i32) -> (r: Result<(), ValidationError>)
        ensures
            (num < min || num > max) <==> r == Err::<(), ValidationError>(
                ValidationError::OutOfRange { min, max, value: num },
            ),
            (min <= num <= max) <==> r is Ok,
    {
        if num < min || num > max {
            return Err(ValidationError::OutOfRange { min, max, value: num });
        }
        Ok(())
    }

    /// Refuses an address that lacks `@` or `.`.
    pub fn validate_email(email: &str) -> (r: Result<(), ValidationError>)
        ensures
            (email@.contains('@') && email@.contains('.')) <==> r is Ok,
            !(email@.contains('@') && email@.contains('.')) <==> (r matches Err(
                ValidationError::InvalidFormat(m),
            ) && m@ == email_message()),
    {
        if !contains_char(email, '@') || !contains_char(email, '.') {
            return Err(ValidationError::InvalidFormat("Email must contain '@' and '.'".to_string()));
        }
        Ok(())
    }
}

} // verus!
