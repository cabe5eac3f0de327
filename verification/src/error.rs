//! The errors of the tool.
use vstd::prelude::*;

verus! {

#[verifier::external_type_specification]
#[verifier::external_body]
pub struct ExDynamoError(aws_sdk_dynamodb::Error);

/// What went wrong.
#[derive(Debug)]
pub enum CustomError {
    /// The service refused or failed a request.
    DynamoError(aws_sdk_dynamodb::Error),
    /// A command was run on an action of another kind.
    UnexpectedActionVariant(String),
    /// What was given cannot be used.
    InvalidInput(String),
}

/// The text that an error of the service shows by its `Display`; it depends
/// on the error alone.
pub uninterp spec fn dynamo_error_display(error: aws_sdk_dynamodb::Error) -> Seq<char>;

/// `Display` of `aws_sdk_dynamodb::Error`: the error's text.
#[verifier::external_body]
fn dynamo_error_text(error: &aws_sdk_dynamodb::Error) -> (text: String)
    ensures
        text@ == dynamo_error_display(*error),
{
    format!("{}", error)
}

impl CustomError {
    /// What the text that reports the error begins with.
    pub open spec fn message_prefix(&self) -> Seq<char> {
        match self {
            CustomError::UnexpectedActionVariant(_) => "Unexpected action variant: "@,
            CustomError::DynamoError(_) => "AWS DynamoDB error: "@,
            CustomError::InvalidInput(_) => "Invalid input: "@,
        }
    }

    /// Writes the text that reports the error: the kind of error, then the
    /// message given, or the text that the service's error shows.
    pub fn to_string(&self) -> (text: String)
        ensures
            match self {
                CustomError::UnexpectedActionVariant(msg) => text@ == self.message_prefix()
                    + msg@,
                CustomError::InvalidInput(msg) => text@ == self.message_prefix() + msg@,
                CustomError::DynamoError(e) => text@ == self.message_prefix()
                    + dynamo_error_display(*e),
            },
    {
        match self {
            CustomError::UnexpectedActionVariant(msg) => {
                let mut text = String::from_str("Unexpected action variant: ");
                text.append(msg.as_str());
                text
            },
            CustomError::DynamoError(e) => {
                let mut text = String::from_str("AWS DynamoDB error: ");
                text.append(dynamo_error_text(e).as_str());
                text
            },
            CustomError::InvalidInput(msg) => {
                let mut text = String::from_str("Invalid input: ");
                text.append(msg.as_str());
                text
            },
        }
    }
}

impl From<aws_sdk_dynamodb::Error> for CustomError {
    fn from(e: aws_sdk_dynamodb::Error) -> (error: Self) {
        CustomError::DynamoError(e)
    }
}

impl vstd::std_specs::convert::FromSpecImpl<aws_sdk_dynamodb::Error> for CustomError {
    open spec fn obeys_from_spec() -> bool {
        true
    }

    open spec fn from_spec(e: aws_sdk_dynamodb::Error) -> Self {
        CustomError::DynamoError(e)
    }
}

} // verus!
