use dynamo_cli::dynamodb::actions::DynamoDBAction;
use dynamo_cli::dynamodb::query::{build_query, get_attribute_type, QueryKeys};
use dynamo_cli::dynamodb::types::{
    AttributeDefinition, AttributeValue, DescribeTableOutput, KeySchemaElement, KeyType,
    ScalarAttributeType, TableDescription,
};
use dynamo_cli::error::CustomError;

fn s(text: &str) -> String {
    text.to_string()
}

fn describe(keys: Vec<(&str, KeyType)>, defs: Vec<(&str, ScalarAttributeType)>) -> DescribeTableOutput {
    DescribeTableOutput {
        table: Some(TableDescription {
            key_schema: Some(
                keys.into_iter()
                    .map(|(n, key_type)| KeySchemaElement { attribute_name: s(n), key_type })
                    .collect(),
            ),
            attribute_definitions: Some(
                defs.into_iter()
                    .map(|(n, attribute_type)| AttributeDefinition { attribute_name: s(n), attribute_type })
                    .collect(),
            ),
        }),
    }
}

fn keys(pk: &str, sk: Option<&str>) -> QueryKeys {
    QueryKeys { table_name: s("t"), pk: s(pk), sk: sk.map(s) }
}

fn invalid_input(result: Result<impl std::fmt::Debug, CustomError>) -> String {
    match result {
        Err(CustomError::InvalidInput(msg)) => msg,
        other => panic!("unexpected {:?}", other),
    }
}

#[test]
fn query_keys_need_a_query_with_partition_key() {
    let action = DynamoDBAction::Query { table_name: s("t"), pk: s("1"), sk: Some(s("2")) };
    let k = action.query_keys().unwrap();
    assert_eq!((k.table_name, k.pk, k.sk), (s("t"), s("1"), Some(s("2"))));
    let empty_pk = DynamoDBAction::Query { table_name: s("t"), pk: s(""), sk: None };
    assert_eq!(invalid_input(empty_pk.query_keys()), "Partition key (pk) must be provided for query.");
    match (DynamoDBAction::ScanTable { table_name: s("t") }).query_keys() {
        Err(CustomError::UnexpectedActionVariant(msg)) => assert_eq!(msg, "Unexpected action for query"),
        other => panic!("unexpected {:?}", other),
    }
}

#[test]
fn finds_declared_types() {
    let desc = describe(vec![], vec![("a", ScalarAttributeType::N), ("b", ScalarAttributeType::B)]);
    assert!(matches!(get_attribute_type(&desc, &s("b")), Some(ScalarAttributeType::B)));
    assert!(matches!(get_attribute_type(&desc, &s("a")), Some(ScalarAttributeType::N)));
    assert!(get_attribute_type(&desc, &s("c")).is_none());
    assert!(get_attribute_type(&DescribeTableOutput { table: None }, &s("a")).is_none());
}

#[test]
fn query_on_partition_key_only() {
    let desc = describe(vec![("id", KeyType::Hash)], vec![("id", ScalarAttributeType::N)]);
    let req = build_query(&keys("5", None), &desc).unwrap();
    assert_eq!(req.table_name, "t");
    assert_eq!(req.key_condition_expression, "#pk = :pk_val");
    assert_eq!(req.expression_attribute_names, vec![(s("#pk"), s("id"))]);
    assert_eq!(req.expression_attribute_values.len(), 1);
    assert_eq!(req.expression_attribute_values[0].0, ":pk_val");
    assert!(matches!(&req.expression_attribute_values[0].1, AttributeValue::N(v) if v == "5"));
}

#[test]
fn query_on_both_keys() {
    let desc = describe(
        vec![("id", KeyType::Hash), ("when", KeyType::Range)],
        vec![("when", ScalarAttributeType::S), ("id", ScalarAttributeType::B)],
    );
    let req = build_query(&keys("ab", Some("2024")), &desc).unwrap();
    assert_eq!(req.key_condition_expression, "#pk = :pk_val AND #sk = :sk_val");
    assert_eq!(req.expression_attribute_names, vec![(s("#pk"), s("id")), (s("#sk"), s("when"))]);
    assert!(matches!(&req.expression_attribute_values[0].1, AttributeValue::B(b) if b == b"ab"));
    assert_eq!(req.expression_attribute_values[1].0, ":sk_val");
    assert!(matches!(&req.expression_attribute_values[1].1, AttributeValue::S(v) if v == "2024"));
}

#[test]
fn query_errors() {
    let no_pk = describe(vec![("when", KeyType::Range)], vec![]);
    assert_eq!(
        invalid_input(build_query(&keys("1", None), &no_pk)),
        "Partition key name could not be determined from table schema."
    );
    let no_sk = describe(vec![("id", KeyType::Hash)], vec![]);
    assert_eq!(
        invalid_input(build_query(&keys("1", Some("2")), &no_sk)),
        "Sort key (sk) provided but table does not have a sort key."
    );
    assert_eq!(
        invalid_input(build_query(&keys("1", None), &no_sk)),
        "Partition key name could not be determined from table schema."
    );
    let undeclared_sk = describe(
        vec![("id", KeyType::Hash), ("when", KeyType::Range)],
        vec![("id", ScalarAttributeType::S)],
    );
    assert_eq!(
        invalid_input(build_query(&keys("1", Some("x")), &undeclared_sk)),
        "Sort key (sk) provided but table does not have a sort key: x"
    );
    let req = build_query(&keys("1", None), &undeclared_sk).unwrap();
    assert_eq!(req.key_condition_expression, "#pk = :pk_val");
}

#[test]
fn buildable_unless_sort_key_value_missing() {
    let both = describe(
        vec![("id", KeyType::Hash), ("when", KeyType::Range)],
        vec![("id", ScalarAttributeType::S), ("when", ScalarAttributeType::S)],
    );
    assert!(!dynamo_cli::dynamodb::query::query_buildable_check(&keys("1", None), &both));
    assert!(dynamo_cli::dynamodb::query::query_buildable_check(&keys("1", Some("2")), &both));
    let pk_only = describe(vec![("id", KeyType::Hash)], vec![("id", ScalarAttributeType::S)]);
    assert!(dynamo_cli::dynamodb::query::query_buildable_check(&keys("1", None), &pk_only));
}
