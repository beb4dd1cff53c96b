use br_llm_graph::{Config, GraphError, Key, KeyMap, Kind, SCHEMA_VERSION, Schema, Value};

type Chat = Vec<String>;

fn key(name: &str) -> Key {
    Key::new(name).unwrap()
}

fn schema() -> Schema {
    Schema::builder()
        .config(key("model"), Kind::Str)
        .config(key("limit"), Kind::Int)
        .build()
}

fn values() -> KeyMap<Value<Chat>> {
    let mut values = KeyMap::new();
    values.insert(key("model"), Value::str("scripted"));
    values.insert(key("limit"), Value::integer(3));
    values
}

#[test]
fn config_tests_given_complete_values_when_new_then_ok() {
    assert!(Config::new(&schema(), values()).is_ok());
}

#[test]
fn given_missing_config_key_when_new_then_missing() {
    let mut values = values();
    values.remove(&key("model"));
    assert!(matches!(
        Config::new(&schema(), values),
        Err(GraphError::MissingKey { .. })
    ));
}

#[test]
fn given_wrong_kind_when_new_then_mismatch() {
    let mut values = values();
    values.insert(key("limit"), Value::str("no"));
    assert!(matches!(
        Config::new(&schema(), values),
        Err(GraphError::KindMismatch { .. })
    ));
}

#[test]
fn given_getters_when_read_then_typed() {
    let config = Config::new(&schema(), values()).unwrap();
    assert_eq!(config.str(&key("model")).unwrap(), "scripted");
    assert_eq!(config.integer(&key("limit")).unwrap(), 3);
}

#[test]
fn given_undeclared_config_key_when_new_then_unknown_key() {
    let mut values = values();
    values.insert(key("stray"), Value::bool(true));
    assert!(matches!(
        Config::new(&schema(), values),
        Err(GraphError::UnknownKey { .. })
    ));
}

#[test]
fn given_config_version_when_restored_then_checked() {
    let kinds = Config::new(&schema(), values()).unwrap();
    let schema_map = kinds.kinds_map().clone();
    assert!(Config::restore(SCHEMA_VERSION, schema_map.clone(), values()).is_ok());
    assert!(matches!(
        Config::restore("other/9", schema_map, values()),
        Err(GraphError::SchemaMismatch { .. })
    ));
}

#[test]
fn given_config_getter_of_other_kind_when_read_then_mismatch() {
    let config = Config::new(&schema(), values()).unwrap();
    match config.integer(&key("model")) {
        Err(GraphError::KindMismatch { expected, found, .. }) => {
            assert_eq!(expected, Kind::Int);
            assert_eq!(found, "str");
        }
        other => panic!("expected a kind mismatch, got {other:?}"),
    }
}
