pub mod cached;
pub mod keys;
pub mod log_query;
pub mod store;
pub mod tx_store;
