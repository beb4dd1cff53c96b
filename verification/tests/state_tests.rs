use br_llm_graph::{GraphError, Key, KeyMap, Kind, SCHEMA_VERSION, Schema, State, Value};

type Chat = Vec<String>;

fn key(name: &str) -> Key {
    Key::new(name).unwrap()
}

fn schema() -> Schema {
    Schema::builder()
        .state(key("count"), Kind::Int)
        .state(key("items"), Kind::list(Kind::Str))
        .build()
}

fn values() -> KeyMap<Value<Chat>> {
    let mut values = KeyMap::new();
    values.insert(key("count"), Value::integer(0));
    values.insert(key("items"), Value::list(Vec::new()));
    values
}

#[test]
fn state_tests_given_complete_values_when_new_then_ok() {
    assert!(State::new(schema(), values()).is_ok());
}

#[test]
fn given_missing_key_when_new_then_missing_key() {
    let mut values = values();
    values.remove(&key("items"));
    assert!(matches!(
        State::new(schema(), values),
        Err(GraphError::MissingKey { .. })
    ));
}

#[test]
fn given_undeclared_key_when_new_then_unknown_key() {
    let mut values = values();
    values.insert(key("stray"), Value::integer(1));
    assert!(matches!(
        State::new(schema(), values),
        Err(GraphError::UnknownKey { .. })
    ));
}

#[test]
fn given_wrong_kind_when_new_then_kind_mismatch() {
    let mut values = values();
    values.insert(key("count"), Value::str("no"));
    assert!(matches!(
        State::new(schema(), values),
        Err(GraphError::KindMismatch { .. })
    ));
}

#[test]
fn given_derive_when_key_declared_then_only_that_key_changes() {
    let state = State::new(schema(), values()).unwrap();
    let derived = state.derive(&key("count"), Value::integer(9)).unwrap();
    assert_eq!(derived.integer(&key("count")).unwrap(), 9);
    assert_eq!(state.integer(&key("count")).unwrap(), 0);
}

#[test]
fn given_derive_with_wrong_kind_when_called_then_refused() {
    let state = State::new(schema(), values()).unwrap();
    assert!(matches!(
        state.derive(&key("count"), Value::str("no")),
        Err(GraphError::KindMismatch { .. })
    ));
}

#[test]
fn given_getters_when_wrong_kind_then_mismatch() {
    let state = State::new(schema(), values()).unwrap();
    assert!(matches!(
        state.str(&key("count")),
        Err(GraphError::KindMismatch { .. })
    ));
}

#[test]
fn given_schema_version_when_restored_then_checked() {
    let restored = State::restore(SCHEMA_VERSION, schema(), values());
    assert!(restored.is_ok());
    let refused = State::restore("br-llm-graph/2", schema(), values());
    match refused {
        Err(GraphError::SchemaMismatch { found }) => assert_eq!(found, "br-llm-graph/2"),
        other => panic!("expected a schema mismatch, got {other:?}"),
    }
}

#[test]
fn given_derive_on_undeclared_key_when_called_then_unknown_key() {
    let state = State::new(schema(), values()).unwrap();
    assert!(matches!(
        state.derive(&key("stray"), Value::integer(1)),
        Err(GraphError::UnknownKey { .. })
    ));
}

#[test]
fn given_missing_value_when_read_then_missing_key() {
    let state = State::new(schema(), values()).unwrap();
    assert!(matches!(
        state.integer(&key("absent")),
        Err(GraphError::MissingKey { .. })
    ));
}

#[test]
fn given_list_value_when_read_then_items_given() {
    let mut values = values();
    values.insert(
        key("items"),
        Value::list(vec![Value::str("a"), Value::str("b")]),
    );
    let state = State::new(schema(), values).unwrap();
    assert_eq!(state.list(&key("items")).unwrap().len(), 2);
    assert_eq!(state.kind_of(&key("count")), Some(&Kind::Int));
    assert_eq!(state.kind_of(&key("absent")), None);
}

#[test]
fn given_wrong_schema_version_when_loaded_then_refused() {
    assert!(matches!(
        State::restore("br-llm-graph/2", schema(), values()),
        Err(GraphError::SchemaMismatch { .. })
    ));
}
