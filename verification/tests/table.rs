use comfy_table::Table;
use dynamo_cli::dynamodb::types::{
    AttributeValue, DescribeTableOutput, Item, KeySchemaElement, KeyType, TableDescription,
};
use dynamo_cli::dynamodb::utils::{get_key_name, print_dynamo_items, DynamicTable};

fn s(text: &str) -> String {
    text.to_string()
}

fn row(pairs: &[(&str, &str)]) -> Vec<(String, String)> {
    pairs.iter().map(|(k, v)| (s(k), s(v))).collect()
}

fn header_of(table: &Table) -> Vec<String> {
    table.header().unwrap().cell_iter().map(|c| c.content()).collect()
}

fn rows_of(table: &Table) -> Vec<Vec<String>> {
    table.row_iter().map(|r| r.cell_iter().map(|c| c.content()).collect()).collect()
}

fn describe(keys: Vec<(&str, KeyType)>) -> DescribeTableOutput {
    DescribeTableOutput {
        table: Some(TableDescription {
            key_schema: Some(
                keys.into_iter()
                    .map(|(name, key_type)| KeySchemaElement { attribute_name: s(name), key_type })
                    .collect(),
            ),
            attribute_definitions: None,
        }),
    }
}

#[test]
fn header_puts_keys_first_and_sorts_the_rest() {
    let mut table = DynamicTable::new(s("id"), Some(s("ts")));
    table.add_row(row(&[("name", "Ann"), ("id", "1"), ("age", "30"), ("ts", "9")]));
    assert_eq!(table.ordered_header(), vec!["id (PK)", "ts (SK)", "age", "name"]);
}

#[test]
fn header_lists_each_name_once_in_byte_order() {
    let mut table = DynamicTable::new(s("id"), None);
    table.add_row(row(&[("b", "1"), ("Z", "2")]));
    table.add_row(row(&[("a", "3"), ("b", "4")]));
    assert_eq!(table.ordered_header(), vec!["Z", "a", "b"]);
}

#[test]
fn header_without_seen_keys_has_no_key_columns() {
    let mut table = DynamicTable::new(s("id"), Some(s("ts")));
    table.add_row(row(&[("x", "1")]));
    assert_eq!(table.ordered_header(), vec!["x"]);
    let empty = DynamicTable::new(s("id"), None);
    assert_eq!(empty.ordered_header(), Vec::<String>::new());
}

#[test]
fn table_has_one_cell_per_column() {
    let mut table = DynamicTable::new(s("id"), Some(s("ts")));
    table.add_row(row(&[("id", "1"), ("ts", "5"), ("color", "red")]));
    table.add_row(row(&[("id", "2"), ("size", "L")]));
    let mut drawn = table.convert_to_table();
    assert_eq!(drawn.current_style_as_preset(), "││──╞═╪╡┆╌┼├┤┬┴╭╮╰╯");
    assert!(matches!(drawn.content_arrangement(), comfy_table::ContentArrangement::Dynamic));
    assert_eq!(header_of(&drawn), vec!["id (PK)", "ts (SK)", "color", "size"]);
    assert_eq!(
        rows_of(&drawn),
        vec![vec!["1", "5", "red", ""], vec!["2", "", "", "L"]]
    );
    // drawing leaves the table as it was
    assert_eq!(table.ordered_header(), vec!["id (PK)", "ts (SK)", "color", "size"]);
}

#[test]
fn later_entry_for_a_column_wins() {
    let mut table = DynamicTable::new(s("id"), None);
    table.add_row(row(&[("id", "1"), ("id (PK)", "literal")]));
    let drawn = table.convert_to_table();
    assert_eq!(header_of(&drawn), vec!["id (PK)", "id (PK)"]);
    assert_eq!(rows_of(&drawn), vec![vec!["literal", "literal"]]);
}

#[test]
fn finds_key_names_by_role() {
    let desc = describe(vec![("pk", KeyType::Hash), ("sk", KeyType::Range)]);
    assert_eq!(get_key_name(&desc, KeyType::Hash), Some(s("pk")));
    assert_eq!(get_key_name(&desc, KeyType::Range), Some(s("sk")));
    assert_eq!(get_key_name(&desc, KeyType::Unknown(s("X"))), None);
    let only_hash = describe(vec![("a", KeyType::Hash), ("b", KeyType::Hash)]);
    assert_eq!(get_key_name(&only_hash, KeyType::Hash), Some(s("a")));
    assert_eq!(get_key_name(&only_hash, KeyType::Range), None);
    let odd = describe(vec![("u", KeyType::Unknown(s("X")))]);
    assert_eq!(get_key_name(&odd, KeyType::Unknown(s("X"))), Some(s("u")));
    assert_eq!(get_key_name(&odd, KeyType::Unknown(s("Y"))), None);
    assert_eq!(get_key_name(&DescribeTableOutput { table: None }, KeyType::Hash), None);
    let no_schema = DescribeTableOutput {
        table: Some(TableDescription { key_schema: None, attribute_definitions: None }),
    };
    assert_eq!(get_key_name(&no_schema, KeyType::Hash), None);
}

#[test]
fn no_items_give_no_table() {
    let desc = describe(vec![("pk", KeyType::Hash)]);
    assert!(print_dynamo_items(&[], &desc).is_none());
}

#[test]
fn items_are_drawn_with_formatted_values() {
    let desc = describe(vec![("pk", KeyType::Hash), ("sk", KeyType::Range)]);
    let items: Vec<Item> = vec![
        vec![
            (s("sk"), AttributeValue::N(s("2"))),
            (s("pk"), AttributeValue::S(s("a"))),
            (s("flag"), AttributeValue::Bool(true)),
        ],
        vec![(s("pk"), AttributeValue::S(s("b"))), (s("list"), AttributeValue::L(vec![]))],
    ];
    let mut drawn = print_dynamo_items(&items, &desc).unwrap();
    assert_eq!(drawn.current_style_as_preset(), "││──╞═╪╡┆╌┼├┤┬┴╭╮╰╯");
    assert!(matches!(drawn.content_arrangement(), comfy_table::ContentArrangement::Dynamic));
    assert_eq!(header_of(&drawn), vec!["pk (PK)", "sk (SK)", "flag", "list"]);
    assert_eq!(rows_of(&drawn), vec![vec!["a", "2", "true", ""], vec!["b", "", "", "[]"]]);
}

#[test]
fn items_without_partition_key_name_use_pk() {
    let desc = DescribeTableOutput { table: None };
    let items: Vec<Item> = vec![vec![(s("PK"), AttributeValue::S(s("v"))), (s("x"), AttributeValue::Null(true))]];
    let drawn = print_dynamo_items(&items, &desc).unwrap();
    assert_eq!(header_of(&drawn), vec!["PK (PK)", "x"]);
    assert_eq!(rows_of(&drawn), vec![vec!["v", "NULL"]]);
}

#[test]
fn header_does_not_depend_on_item_order() {
    let mut first = DynamicTable::new(s("id"), Some(s("ts")));
    first.add_row(row(&[("b", "1"), ("id", "2")]));
    first.add_row(row(&[("ts", "3"), ("a", "4")]));
    let mut second = DynamicTable::new(s("id"), Some(s("ts")));
    second.add_row(row(&[("a", "4"), ("ts", "3")]));
    second.add_row(row(&[("id", "2"), ("b", "1")]));
    assert_eq!(first.ordered_header(), second.ordered_header());
    assert_eq!(first.ordered_header(), vec!["id (PK)", "ts (SK)", "a", "b"]);
}

#[test]
fn drawable_only_without_null_or_with_sort_key() {
    let items: Vec<Item> = vec![vec![(s("Null"), AttributeValue::S(s("v")))]];
    let without_sk = describe(vec![("pk", KeyType::Hash)]);
    let with_sk = describe(vec![("pk", KeyType::Hash), ("sk", KeyType::Range)]);
    assert!(!dynamo_cli::dynamodb::utils::items_drawable_check(&items, &without_sk));
    assert!(dynamo_cli::dynamodb::utils::items_drawable_check(&items, &with_sk));
    let plain: Vec<Item> = vec![vec![(s("a"), AttributeValue::S(s("v")))]];
    assert!(dynamo_cli::dynamodb::utils::items_drawable_check(&plain, &without_sk));
}
