use br_llm_graph::{Finite, GraphError, Kind, Value};

type Chat = Vec<String>;

#[test]
fn given_nan_when_float_then_refused() {
    assert!(matches!(
        Value::<Chat>::float_bits(f64::NAN.to_bits()),
        Err(GraphError::FloatNotFinite)
    ));
    assert!(matches!(
        Value::<Chat>::float_bits(f64::INFINITY.to_bits()),
        Err(GraphError::FloatNotFinite)
    ));
}

#[test]
fn given_list_of_ints_when_matches_list_int_then_true() {
    let value: Value<Chat> = Value::list(vec![Value::integer(1), Value::integer(2)]);
    assert!(value.matches(&Kind::list(Kind::Int)));
    assert!(!value.matches(&Kind::list(Kind::Str)));
    assert!(!value.matches(&Kind::Int));
}

#[test]
fn given_empty_list_when_matches_any_list_then_true() {
    assert!(Value::<Chat>::list(Vec::new()).matches(&Kind::list(Kind::Str)));
}

#[test]
fn given_mixed_list_when_matches_then_false() {
    let value: Value<Chat> = Value::list(vec![Value::integer(1), Value::str("x")]);
    assert!(!value.matches(&Kind::list(Kind::Int)));
}

#[test]
fn given_finite_float_when_built_then_bits_kept() {
    let bits = 1.5f64.to_bits();
    let finite = Finite::from_bits(bits).unwrap();
    assert_eq!(finite.to_bits(), bits);
    assert_eq!(f64::from_bits(finite.to_bits()), 1.5);
    assert!(Value::<Chat>::float_bits(bits).is_ok());
    assert!(matches!(
        Finite::from_bits(f64::NEG_INFINITY.to_bits()),
        Err(GraphError::FloatNotFinite)
    ));
}

#[test]
fn given_values_when_tagged_then_named_by_variant() {
    assert_eq!(Value::<Chat>::integer(1).tag(), "int");
    assert_eq!(Value::<Chat>::float_bits(0.5f64.to_bits()).unwrap().tag(), "float");
    assert_eq!(Value::<Chat>::str("x").tag(), "str");
    assert_eq!(Value::<Chat>::bool(false).tag(), "bool");
    assert_eq!(Value::<Chat>::list(Vec::new()).tag(), "list");
    assert_eq!(Value::<Chat>::conversation(Vec::new()).tag(), "conversation");
}

#[test]
fn given_nested_list_kind_when_matched_then_checked_deeply() {
    let value: Value<Chat> = Value::list(vec![Value::list(vec![Value::str("a")])]);
    assert!(value.matches(&Kind::list(Kind::list(Kind::Str))));
    assert!(!value.matches(&Kind::list(Kind::list(Kind::Int))));
    assert!(Value::<Chat>::conversation(Vec::new()).matches(&Kind::Conversation));
}
