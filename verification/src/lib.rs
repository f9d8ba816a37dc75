//! Verified text, configuration, CSV, JSON and data-cleaning utilities.
pub mod text;
pub mod vec_util;
pub mod json_value;
pub mod json_merge;
pub mod json_text;
pub mod json_merger;
pub mod float_syntax;
pub mod beacon;
pub mod numbers;
pub mod era1;
pub mod mainnet;
pub mod random;
pub mod hex_codec;
pub mod crypto_utils;
pub mod csv_processor;
pub mod geth_batch;
pub mod infura_batch;
pub mod network_health_check;
pub mod packets;
pub mod log_time;
pub mod text_list;
pub mod text_order;
pub mod aead_crypto;
pub mod cbc_crypto;
pub mod weather_cache;
pub mod data_cleaner;
