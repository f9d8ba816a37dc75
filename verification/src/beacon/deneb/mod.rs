pub mod signed_beacon_block;
pub mod config_parser;
pub mod file_encryptor;
pub mod secure_password_generator;
