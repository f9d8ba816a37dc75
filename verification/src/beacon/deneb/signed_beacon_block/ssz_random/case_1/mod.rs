pub mod json_log_parser;
pub mod json_parser;
pub mod secure_hash_verifier;
pub mod secure_password_generator;
