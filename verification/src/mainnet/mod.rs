pub mod config_loader;
pub mod config_parser;
pub mod json_merger;
pub mod secure_key_generator;
pub mod data_checks;
