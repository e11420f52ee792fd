use qs_rust::node::Node;
use qs_rust::overflow::{
    array_to_numeric_object, finalize_list, index_to_string, list_limit_overflow,
    max_numeric_index, overflow_from_items, parse_canonical_index,
};
use qs_rust::{DecodeError, DecodeOptions, Value};

fn scalar(value: &str) -> Node {
    Node::scalar(Value::String(value.to_owned()))
}

#[test]
fn canonical_indices_are_shortest_decimal_texts() {
    assert_eq!(parse_canonical_index("0"), Some(0));
    assert_eq!(parse_canonical_index("7"), Some(7));
    assert_eq!(parse_canonical_index("42"), Some(42));
    assert_eq!(parse_canonical_index("18446744073709551615"), Some(usize::MAX));
    assert_eq!(parse_canonical_index(""), None);
    assert_eq!(parse_canonical_index("07"), None);
    assert_eq!(parse_canonical_index("00"), None);
    assert_eq!(parse_canonical_index("+7"), None);
    assert_eq!(parse_canonical_index("-1"), None);
    assert_eq!(parse_canonical_index("1a"), None);
    assert_eq!(parse_canonical_index("é1"), None);
    assert_eq!(parse_canonical_index("18446744073709551616"), None);
}

#[test]
fn index_text_parses_back_to_the_same_index() {
    for n in [0usize, 1, 9, 10, 99, 100, 12345, usize::MAX] {
        let text = index_to_string(n);
        assert_eq!(text, n.to_string());
        assert_eq!(parse_canonical_index(&text), Some(n));
    }
}

#[test]
fn max_numeric_index_ignores_noncanonical_keys() {
    let entries = vec![
        ("3".to_owned(), scalar("a")),
        ("010".to_owned(), scalar("b")),
        ("field".to_owned(), scalar("c")),
        ("1".to_owned(), scalar("d")),
    ];
    assert_eq!(max_numeric_index(&entries), Some(3));
    assert_eq!(max_numeric_index(&vec![("x".to_owned(), scalar("a"))]), None);
    assert_eq!(max_numeric_index(&Vec::new()), None);
}

#[test]
fn numeric_objects_key_items_by_position() {
    let items = vec![scalar("a"), Node::Undefined, scalar("c")];
    assert_eq!(
        array_to_numeric_object(items, false),
        vec![("0".to_owned(), scalar("a")), ("2".to_owned(), scalar("c"))]
    );
    let items = vec![scalar("a"), Node::Undefined];
    assert_eq!(
        array_to_numeric_object(items, true),
        vec![("0".to_owned(), scalar("a")), ("1".to_owned(), Node::Undefined)]
    );
}

#[test]
fn overflow_objects_remember_the_last_position() {
    assert_eq!(
        overflow_from_items(vec![scalar("a"), Node::Undefined, scalar("c")]),
        Node::OverflowObject {
            entries: vec![("0".to_owned(), scalar("a")), ("2".to_owned(), scalar("c"))],
            max_index: 2,
        }
    );
    assert_eq!(
        overflow_from_items(Vec::new()),
        Node::OverflowObject { entries: Vec::new(), max_index: 0 }
    );
}

#[test]
fn list_limits_overflow_or_fail_as_configured() {
    let options = DecodeOptions::new().with_list_limit(2);
    assert_eq!(list_limit_overflow(2, &options), Ok(false));
    assert_eq!(list_limit_overflow(3, &options), Ok(true));
    let strict = options.clone().with_throw_on_limit_exceeded(true);
    assert_eq!(
        list_limit_overflow(3, &strict),
        Err(DecodeError::ListLimitExceeded { limit: 2 })
    );

    assert_eq!(
        finalize_list(vec![scalar("a"), scalar("b")], &options),
        Ok(Node::Array(vec![scalar("a"), scalar("b")]))
    );
    assert_eq!(
        finalize_list(vec![scalar("a"), scalar("b"), scalar("c")], &options),
        Ok(Node::OverflowObject {
            entries: vec![
                ("0".to_owned(), scalar("a")),
                ("1".to_owned(), scalar("b")),
                ("2".to_owned(), scalar("c")),
            ],
            max_index: 2,
        })
    );
    assert_eq!(
        finalize_list(vec![scalar("a"), scalar("b"), scalar("c")], &strict),
        Err(DecodeError::ListLimitExceeded { limit: 2 })
    );
}

#[test]
fn node_predicates_classify_variants() {
    assert!(Node::Undefined.is_undefined());
    assert!(!scalar("a").is_undefined());
    assert!(Node::scalar(Value::Null).is_null_source());
    assert!(!scalar("a").is_null_source());
    assert!(Node::Object(Vec::new()).is_map_like());
    assert!(Node::OverflowObject { entries: Vec::new(), max_index: 0 }.is_map_like());
    assert!(!Node::Array(Vec::new()).is_map_like());
}
