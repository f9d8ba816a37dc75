pub mod config_parser;
pub mod file_encryption_utility;
pub mod log_processor;
pub mod network_packet_analyzer;
pub mod data_cleaner;
pub mod csv_rows;
pub mod value_records;
pub mod record_checks;
