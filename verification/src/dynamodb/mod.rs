//! The DynamoDB commands and what they compute.
pub mod actions;
pub mod empty_table;
pub mod formatter;
pub mod list_samples;
pub mod query;
pub mod scan_table;
pub mod types;
pub mod utils;
