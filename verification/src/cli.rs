//! What the command line asks for.
use vstd::prelude::*;

use crate::dynamodb::actions::DynamoDBAction;

verus! {

/// The service that a command is for.
#[derive(Debug)]
pub enum AWSService {
    DynamoDB { action: DynamoDBAction },
    S3 { bucket_name: String },
}

/// The command line: the profile to use, and the command.
#[derive(Debug)]
pub struct Args {
    pub profile: Option<String>,
    pub aws_service: AWSService,
}

/// The name of the profile that is used when none is given.
pub open spec fn default_profile() -> Seq<char> {
    "default"@
}

/// The profile to use: the one given, else `default`.
pub fn profile_or_default(profile: Option<String>) -> (name: String)
    ensures
        name@ == match profile {
            Some(p) => p@,
            None => default_profile(),
        },
{
    match profile {
        Some(p) => p,
        None => String::from_str("default"),
    }
}

} // verus!
