pub mod data_cleaner;
pub mod log_analyzer;
pub mod people;
pub mod delimited_file;
