pub mod ssz_random;
pub mod csv_processor;
pub mod data_validator;
pub mod data_processor;
pub mod json_log_processor;
pub mod json_merger;
pub mod websocket_server;
pub mod field_rows;
pub mod category_records;
pub mod record_catalog;
