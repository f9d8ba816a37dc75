pub mod case_1;
pub mod config_loader;
pub mod csv_processor;
pub mod json_merger;
pub mod json_validator;
pub mod case_0;
pub mod data_cleaner;
pub mod csv_data_processor;
pub mod file_encryption;
pub mod numeric_input;
