use dynamo_cli::strings::{insert_sorted, join_strings, string_lt, usize_to_decimal};

#[test]
fn renders_decimals() {
    assert_eq!(usize_to_decimal(0), "0");
    assert_eq!(usize_to_decimal(7), "7");
    assert_eq!(usize_to_decimal(10), "10");
    assert_eq!(usize_to_decimal(907), "907");
    assert_eq!(usize_to_decimal(usize::MAX), usize::MAX.to_string());
}

#[test]
fn joins_with_separator() {
    let parts = vec!["a".to_string(), "bc".to_string(), "".to_string(), "d".to_string()];
    assert_eq!(join_strings(&parts, ", "), "a, bc, , d");
    assert_eq!(join_strings(&vec![], ", "), "");
    assert_eq!(join_strings(&vec!["one".to_string()], "-"), "one");
}

#[test]
fn orders_names_like_strings() {
    let pairs = [("a", "b"), ("B", "a"), ("a", "ab"), ("", "a"), ("ab", "b"), ("z", "é")];
    for (x, y) in pairs {
        let (x, y) = (x.to_string(), y.to_string());
        assert!(string_lt(&x, &y), "{} < {}", x, y);
        assert!(!string_lt(&y, &x), "not {} < {}", y, x);
        assert_eq!(string_lt(&x, &y), x < y);
    }
    let a = "same".to_string();
    assert!(!string_lt(&a, &a.clone()));
}

#[test]
fn inserts_in_order_once() {
    let mut v: Vec<String> = Vec::new();
    for name in ["m", "b", "z", "b", "a", "m", "B"] {
        insert_sorted(&mut v, name.to_string());
    }
    assert_eq!(v, vec!["B", "a", "b", "m", "z"]);
}
