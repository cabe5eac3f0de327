//! The actions on DynamoDB tables that the tool offers.
use vstd::prelude::*;

verus! {

/// An action on a table, with what it was given.
#[derive(Debug)]
pub enum DynamoDBAction {
    /// Show a few items of the table.
    ListSamples { table_name: String },
    /// Delete every item of the table.
    EmptyTable { table_name: String },
    /// Show every item of the table.
    ScanTable { table_name: String },
    /// Show the items with the given partition key (and sort key).
    Query { table_name: String, pk: String, sk: Option<String> },
}

} // verus!
