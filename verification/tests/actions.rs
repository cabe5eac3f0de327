use dynamo_cli::cli::profile_or_default;
use dynamo_cli::dynamodb::actions::DynamoDBAction;
use dynamo_cli::dynamodb::empty_table::delete_keys;
use dynamo_cli::dynamodb::list_samples::{sample_outcome, SampleOutcome, SampleScanFailure, SAMPLE_SIZE};
use dynamo_cli::dynamodb::scan_table::{scan_page, ScanStep};
use dynamo_cli::dynamodb::types::{AttributeValue, Item};
use dynamo_cli::error::CustomError;

fn s(text: &str) -> String {
    text.to_string()
}

fn unexpected(result: Result<String, CustomError>) -> String {
    match result {
        Err(CustomError::UnexpectedActionVariant(msg)) => msg,
        other => panic!("unexpected {:?}", other),
    }
}

#[test]
fn actions_name_their_tables() {
    let list = DynamoDBAction::ListSamples { table_name: s("a") };
    let empty = DynamoDBAction::EmptyTable { table_name: s("b") };
    let scan = DynamoDBAction::ScanTable { table_name: s("c") };
    let query = DynamoDBAction::Query { table_name: s("d"), pk: s("1"), sk: None };
    assert_eq!(list.list_samples_table_name().unwrap(), "a");
    assert_eq!(unexpected(scan.list_samples_table_name()), "Unexpected action for list_samples");
    assert_eq!(empty.empty_table_name().unwrap(), "b");
    assert_eq!(unexpected(query.empty_table_name()), "Unexpected action for empty_table");
    assert_eq!(scan.scan_table_name().unwrap(), "c");
    assert_eq!(empty.scan_table_name().unwrap(), "b");
    assert_eq!(unexpected(list.scan_table_name()), "scan_table called on unsupported variant");
    assert_eq!(unexpected(query.scan_table_name()), "scan_table called on unsupported variant");
    assert_eq!(SAMPLE_SIZE, 10);
}

#[test]
fn scan_pages_are_gathered_in_order() {
    let item = |v: &str| -> Item { vec![(s("id"), AttributeValue::S(s(v)))] };
    let mut all: Vec<Item> = Vec::new();
    let step = scan_page(&mut all, vec![item("1"), item("2")], Some(item("2")));
    match step {
        ScanStep::Continue(key) => assert!(matches!(&key[0].1, AttributeValue::S(v) if v == "2")),
        ScanStep::Finished => panic!("scan ended early"),
    }
    let step = scan_page(&mut all, vec![item("3")], None);
    assert!(matches!(step, ScanStep::Finished));
    let ids: Vec<String> = all
        .iter()
        .map(|i| match &i[0].1 {
            AttributeValue::S(v) => v.clone(),
            _ => panic!(),
        })
        .collect();
    assert_eq!(ids, vec!["1", "2", "3"]);
}

#[test]
fn one_delete_per_item_by_partition_key() {
    let items: Vec<Item> = vec![
        vec![(s("x"), AttributeValue::N(s("0"))), (s("id"), AttributeValue::S(s("a")))],
        vec![(s("id"), AttributeValue::N(s("7"))), (s("id"), AttributeValue::N(s("8")))],
    ];
    let keys = delete_keys(&Some(s("id")), items);
    assert_eq!(keys.len(), 2);
    assert_eq!(keys[0].name, "id");
    assert!(matches!(&keys[0].value, AttributeValue::S(v) if v == "a"));
    assert!(matches!(&keys[1].value, AttributeValue::N(v) if v == "7"));
    assert!(delete_keys(&None, vec![]).is_empty());
}

#[test]
fn errors_report_their_text() {
    assert_eq!(CustomError::InvalidInput(s("bad")).to_string(), "Invalid input: bad");
    assert_eq!(
        CustomError::UnexpectedActionVariant(s("x")).to_string(),
        "Unexpected action variant: x"
    );
    let not_found = aws_sdk_dynamodb::Error::ResourceNotFoundException(
        aws_sdk_dynamodb::types::error::ResourceNotFoundException::builder().message("gone").build(),
    );
    assert_eq!(
        CustomError::DynamoError(not_found).to_string(),
        "AWS DynamoDB error: ResourceNotFoundException: gone"
    );
}

#[test]
fn service_errors_convert_to_dynamo_errors() {
    let not_found = aws_sdk_dynamodb::Error::ResourceNotFoundException(
        aws_sdk_dynamodb::types::error::ResourceNotFoundException::builder().message("t").build(),
    );
    match CustomError::from(not_found) {
        CustomError::DynamoError(e) => assert_eq!(e.to_string(), "ResourceNotFoundException: t"),
        other => panic!("unexpected {:?}", other),
    }
}

#[test]
fn profile_defaults_to_default() {
    assert_eq!(profile_or_default(None), "default");
    assert_eq!(profile_or_default(Some(s("prod"))), "prod");
}

#[test]
fn sampling_outcomes() {
    let item: Item = vec![(s("id"), AttributeValue::S(s("1")))];
    match sample_outcome(Ok(vec![item])) {
        Ok(SampleOutcome::Samples(items)) => assert_eq!(items.len(), 1),
        other => panic!("unexpected {:?}", other),
    }
    assert!(matches!(sample_outcome(Ok(vec![])), Ok(SampleOutcome::NoItems)));
    match sample_outcome(Err(SampleScanFailure::TableNotFound(None))) {
        Ok(SampleOutcome::TableNotFound(m)) => assert_eq!(m, "No message"),
        other => panic!("unexpected {:?}", other),
    }
    match sample_outcome(Err(SampleScanFailure::TableNotFound(Some(s("gone"))))) {
        Ok(SampleOutcome::TableNotFound(m)) => assert_eq!(m, "gone"),
        other => panic!("unexpected {:?}", other),
    }
    let other = aws_sdk_dynamodb::Error::ResourceNotFoundException(
        aws_sdk_dynamodb::types::error::ResourceNotFoundException::builder().message("denied").build(),
    );
    match sample_outcome(Err(SampleScanFailure::Other(other))) {
        Err(CustomError::DynamoError(e)) => assert_eq!(e.to_string(), "ResourceNotFoundException: denied"),
        other => panic!("unexpected {:?}", other),
    }
}

#[test]
fn keyed_prefix_stops_at_first_item_without_key() {
    let keyed: Item = vec![(s("id"), AttributeValue::S(s("1")))];
    let other: Item = vec![(s("x"), AttributeValue::S(s("2")))];
    let items = vec![keyed, other, vec![(s("id"), AttributeValue::S(s("3")))]];
    assert_eq!(dynamo_cli::dynamodb::empty_table::keyed_prefix_len(&Some(s("id")), &items), 1);
    assert_eq!(dynamo_cli::dynamodb::empty_table::keyed_prefix_len(&None, &items), 0);
    assert_eq!(dynamo_cli::dynamodb::empty_table::keyed_prefix_len(&Some(s("id")), &vec![]), 0);
}
