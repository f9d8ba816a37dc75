pub mod data_cleaner;
pub mod csv_processor;
pub mod file_encryptor;
pub mod data_processor;
