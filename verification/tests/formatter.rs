use dynamo_cli::dynamodb::formatter::{format_attribute_value, to_attribute_value};
use dynamo_cli::dynamodb::types::{AttributeValue, ScalarAttributeType};

fn s(text: &str) -> String {
    text.to_string()
}

#[test]
fn formats_strings_and_numbers_as_they_are() {
    assert_eq!(format_attribute_value(&AttributeValue::S(s("hello"))), "hello");
    assert_eq!(format_attribute_value(&AttributeValue::N(s("42.5"))), "42.5");
    assert_eq!(format_attribute_value(&AttributeValue::S(s(""))), "");
}

#[test]
fn formats_booleans_and_null() {
    assert_eq!(format_attribute_value(&AttributeValue::Bool(true)), "true");
    assert_eq!(format_attribute_value(&AttributeValue::Bool(false)), "false");
    assert_eq!(format_attribute_value(&AttributeValue::Null(true)), "NULL");
    assert_eq!(format_attribute_value(&AttributeValue::Null(false)), "NULL");
}

#[test]
fn formats_binary_by_length() {
    assert_eq!(format_attribute_value(&AttributeValue::B(vec![1, 2, 3])), "<Binary: 3 bytes>");
    assert_eq!(format_attribute_value(&AttributeValue::B(vec![])), "<Binary: 0 bytes>");
    assert_eq!(format_attribute_value(&AttributeValue::B(vec![0; 1234])), "<Binary: 1234 bytes>");
    assert_eq!(
        format_attribute_value(&AttributeValue::Bs(vec![vec![1], vec![2, 3]])),
        "<BinarySet: 2 items>"
    );
    assert_eq!(format_attribute_value(&AttributeValue::Bs(vec![])), "<BinarySet: 0 items>");
}

#[test]
fn formats_sets_between_brackets() {
    assert_eq!(
        format_attribute_value(&AttributeValue::Ss(vec![s("a"), s("b"), s("c")])),
        "[a, b, c]"
    );
    assert_eq!(format_attribute_value(&AttributeValue::Ns(vec![s("1"), s("2")])), "[1, 2]");
    assert_eq!(format_attribute_value(&AttributeValue::Ss(vec![])), "[]");
    assert_eq!(format_attribute_value(&AttributeValue::Ns(vec![s("7")])), "[7]");
}

#[test]
fn formats_lists_and_maps_recursively() {
    let list = AttributeValue::L(vec![
        AttributeValue::S(s("x")),
        AttributeValue::N(s("1")),
        AttributeValue::L(vec![AttributeValue::Bool(true)]),
    ]);
    assert_eq!(format_attribute_value(&list), "[x, 1, [true]]");
    let map = AttributeValue::M(vec![
        (s("name"), AttributeValue::S(s("Ann"))),
        (s("tags"), AttributeValue::Ss(vec![s("a"), s("b")])),
        (s("inner"), AttributeValue::M(vec![(s("k"), AttributeValue::Null(true))])),
    ]);
    assert_eq!(format_attribute_value(&map), "{ name: Ann, tags: [a, b], inner: { k: NULL } }");
    assert_eq!(format_attribute_value(&AttributeValue::L(vec![])), "[]");
    assert_eq!(format_attribute_value(&AttributeValue::M(vec![])), "{  }");
}

#[test]
fn formats_unknown_values_by_name() {
    assert_eq!(format_attribute_value(&AttributeValue::Unknown), "Unknown");
}

#[test]
fn converts_keys_to_the_declared_type() {
    match to_attribute_value("abc", &ScalarAttributeType::S) {
        AttributeValue::S(v) => assert_eq!(v, "abc"),
        other => panic!("unexpected {:?}", other),
    }
    match to_attribute_value("12", &ScalarAttributeType::N) {
        AttributeValue::N(v) => assert_eq!(v, "12"),
        other => panic!("unexpected {:?}", other),
    }
    match to_attribute_value("hé", &ScalarAttributeType::B) {
        AttributeValue::B(v) => assert_eq!(v, vec![0x68, 0xc3, 0xa9]),
        other => panic!("unexpected {:?}", other),
    }
    match to_attribute_value("x", &ScalarAttributeType::Unknown) {
        AttributeValue::S(v) => assert_eq!(v, "x"),
        other => panic!("unexpected {:?}", other),
    }
}

#[test]
fn converted_keys_show_their_text() {
    for ty in [ScalarAttributeType::S, ScalarAttributeType::N, ScalarAttributeType::Unknown] {
        let value = to_attribute_value("key-1", &ty);
        assert_eq!(format_attribute_value(&value), "key-1");
    }
    let value = to_attribute_value("hé", &ScalarAttributeType::B);
    assert_eq!(format_attribute_value(&value), "<Binary: 3 bytes>");
}
