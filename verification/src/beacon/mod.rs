pub mod deneb;
pub mod json_merger;
pub mod json_validator;
