pub mod csv_processor;
pub mod json_merger;
pub mod network_packet_analyzer;
pub mod data_cleaner;
pub mod table_records;
pub mod record_rules;
pub mod file_encryption_utility;
