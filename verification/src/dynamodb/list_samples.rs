//! Showing a few items of a table.
use vstd::prelude::*;

use crate::dynamodb::actions::DynamoDBAction;
use crate::dynamodb::types::Item;
use crate::error::CustomError;

verus! {

/// How many items a sample holds at most.
pub const SAMPLE_SIZE: i32 = 10;

impl DynamoDBAction {
    /// The table that samples are taken from; only a sampling action has one.
    pub fn list_samples_table_name(&self) -> (name: Result<String, CustomError>)
        ensures
            match *self {
                DynamoDBAction::ListSamples { table_name } => name matches Ok(n) && n@
                    == table_name@,
                _ => name matches Err(CustomError::UnexpectedActionVariant(msg)) && msg@
                    == "Unexpected action for list_samples"@,
            },
    {
        match self {
            DynamoDBAction::ListSamples { table_name } => Ok(table_name.clone()),
            _ => Err(
                CustomError::UnexpectedActionVariant(
                    String::from_str("Unexpected action for list_samples"),
                ),
            ),
        }
    }
}

/// How a sampling scan failed.
#[derive(Debug)]
pub enum SampleScanFailure {
    /// The table does not exist; with the service's message, if it gave one.
    TableNotFound(Option<String>),
    /// Any other failure, with the service's error.
    Other(aws_sdk_dynamodb::Error),
}

/// What a sampling ends with.
#[derive(Debug)]
pub enum SampleOutcome {
    /// The table does not exist: say so, with the message (or `No message`),
    /// and answer with no samples.
    TableNotFound(String),
    /// The table has no items: say so, and answer with no samples.
    NoItems,
    /// These items are the samples: show them, and answer with them.
    Samples(Vec<Item>),
}

/// Decides what a sampling ends with, from how its scan came back: a missing
/// table and an empty one give no samples; any other failure is an error.
pub fn sample_outcome(scan: Result<Vec<Item>, SampleScanFailure>) -> (outcome: Result<
    SampleOutcome,
    CustomError,
>)
    ensures
        match scan {
            Ok(items) => if items@.len() == 0 {
                outcome matches Ok(SampleOutcome::NoItems)
            } else {
                outcome == Ok::<SampleOutcome, CustomError>(SampleOutcome::Samples(items))
            },
            Err(SampleScanFailure::TableNotFound(message)) => outcome matches Ok(
                SampleOutcome::TableNotFound(m),
            ) && m@ == match message {
                Some(text) => text@,
                None => "No message"@,
            },
            Err(SampleScanFailure::Other(error)) => outcome matches Err(
                CustomError::DynamoError(e),
            ) && e == error,
        },
{
    match scan {
        Ok(items) => if items.len() == 0 {
            Ok(SampleOutcome::NoItems)
        } else {
            Ok(SampleOutcome::Samples(items))
        },
        Err(SampleScanFailure::TableNotFound(message)) => {
            let message = match message {
                Some(text) => text,
                None => String::from_str("No message"),
            };
            Ok(SampleOutcome::TableNotFound(message))
        },
        Err(SampleScanFailure::Other(error)) => Err(CustomError::DynamoError(error)),
    }
}

} // verus!
