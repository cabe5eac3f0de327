//! Verified core of a command-line tool for Amazon DynamoDB tables.
pub mod cli;
pub mod dynamodb;
pub mod error;
pub mod strings;
pub mod table;
