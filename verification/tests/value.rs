use qs_rust::value::object_from_pairs;
use qs_rust::{DateTimeValue, Object, TemporalValue, Value};

fn sample_temporal() -> TemporalValue {
    TemporalValue::from(DateTimeValue::new(2024, 1, 2, 3, 4, 5, 0, Some(0)).unwrap())
}

fn check_scalar_and_empty_helpers() {
    for value in [
        Value::Null,
        Value::Bool(true),
        Value::I64(-1),
        Value::U64(1),
        Value::F64(1.5f64.to_bits()),
        Value::String("text".to_owned()),
        Value::Temporal(sample_temporal()),
        Value::Bytes(vec![1, 2, 3]),
    ] {
        assert!(value.is_scalar(), "{value:?} should be scalar");
    }

    for value in [
        Value::Array(vec![Value::Null]),
        Value::Object([("field".to_owned(), Value::Null)].into()),
    ] {
        assert!(!value.is_scalar(), "{value:?} should not be scalar");
    }

    assert!(Value::Null.is_empty_for_decode());
    assert!(Value::String(String::new()).is_empty_for_decode());
    assert!(Value::Array(Vec::new()).is_empty_for_decode());
    assert!(Value::Object(Object::new()).is_empty_for_decode());
    assert!(!Value::Bool(true).is_empty_for_decode());
    assert!(!Value::String("text".to_owned()).is_empty_for_decode());

    let object: Object = [("field".to_owned(), Value::Bool(true))].into();
    assert_eq!(Value::from(object.clone()), Value::Object(object));
}

#[test]
fn value_scalar_and_empty_helpers_match_the_public_value_model() {
    check_scalar_and_empty_helpers();
}

#[test]
fn tests_scalar_and_empty_helpers_match_the_public_value_model() {
    check_scalar_and_empty_helpers();
}

#[test]
fn nonempty_containers_and_other_scalars_are_not_empty_for_decode() {
    assert!(!Value::Array(vec![Value::Null]).is_empty_for_decode());
    assert!(!Value::Object([("k".to_owned(), Value::Null)].into()).is_empty_for_decode());
    assert!(!Value::I64(0).is_empty_for_decode());
    assert!(!Value::U64(0).is_empty_for_decode());
    assert!(!Value::Bytes(Vec::new()).is_empty_for_decode());
    assert!(!Value::Temporal(sample_temporal()).is_empty_for_decode());
}

#[test]
fn cloned_values_compare_equal_to_the_values_they_copy() {
    let nested = Value::Object(
        [
            ("list".to_owned(), Value::Array(vec![Value::I64(1), Value::Null])),
            ("text".to_owned(), Value::String("x".to_owned())),
        ]
        .into(),
    );
    assert_eq!(nested.clone(), nested);
}

#[test]
fn object_insert_replaces_in_place_or_appends() {
    let mut object: Object = vec![
        ("a".to_owned(), Value::I64(1)),
        ("b".to_owned(), Value::I64(2)),
    ];
    assert_eq!(
        qs_rust::value::object_insert(&mut object, "a".to_owned(), Value::I64(3)),
        Some(Value::I64(1))
    );
    assert_eq!(
        qs_rust::value::object_insert(&mut object, "c".to_owned(), Value::I64(4)),
        None
    );
    assert_eq!(
        object,
        vec![
            ("a".to_owned(), Value::I64(3)),
            ("b".to_owned(), Value::I64(2)),
            ("c".to_owned(), Value::I64(4)),
        ]
    );
}

#[test]
fn values_compare_floats_as_floats() {
    let nan = Value::F64(f64::NAN.to_bits());
    assert!(nan != nan);
    assert_eq!(Value::F64(0.0f64.to_bits()), Value::F64((-0.0f64).to_bits()));
    assert_ne!(Value::F64(1.0f64.to_bits()), Value::F64(2.0f64.to_bits()));
    assert_ne!(Value::F64(1.0f64.to_bits()), Value::U64(1.0f64.to_bits()));
    let nested = |x: f64| {
        Value::Object(vec![(
            "a".to_owned(),
            Value::Array(vec![Value::F64(x.to_bits()), Value::Bytes(vec![1, 2])]),
        )])
    };
    assert_eq!(nested(0.0), nested(-0.0));
    assert_ne!(nested(f64::NAN), nested(f64::NAN));
    assert_ne!(
        Value::Object(vec![("a".to_owned(), Value::Null)]),
        Value::Object(vec![("b".to_owned(), Value::Null)])
    );
}

#[test]
fn objects_from_pairs_keep_one_entry_per_key() {
    let object = object_from_pairs(vec![
        ("a".to_owned(), Value::I64(1)),
        ("b".to_owned(), Value::I64(2)),
        ("a".to_owned(), Value::I64(3)),
    ]);
    assert_eq!(
        object,
        vec![
            ("a".to_owned(), Value::I64(3)),
            ("b".to_owned(), Value::I64(2)),
        ]
    );
    assert!(object_from_pairs(Vec::new()).is_empty());
}
