use br_llm_graph::graph::map::MapStop;
use br_llm_graph::{
    GraphError, Key, KeyMap, Kind, MapNode, Schema, State, Transcript, Update, Value,
};

/// A conversation of the tests: its entries.
#[derive(Debug, Clone, PartialEq)]
struct Chat(Vec<String>);

impl Transcript<String> for Chat {
    fn edit(&self, edit: &String) -> Result<Chat, String> {
        let mut next = self.clone();
        next.0.push(edit.clone());
        Ok(next)
    }
}

fn key(name: &str) -> Key {
    Key::new(name).unwrap()
}

fn schema() -> Schema {
    Schema::builder()
        .state(key("items"), Kind::list(Kind::Str))
        .state(key("item"), Kind::Str)
        .state(key("out"), Kind::Str)
        .state(key("outs"), Kind::list(Kind::Str))
        .build()
}

fn state(items: &[&str]) -> State<Chat> {
    let mut values = KeyMap::new();
    values.insert(
        key("items"),
        Value::list(items.iter().map(|s| Value::str(s)).collect()),
    );
    values.insert(key("item"), Value::str(""));
    values.insert(key("out"), Value::str("initial"));
    values.insert(key("outs"), Value::list(Vec::new()));
    State::new(schema(), values).unwrap()
}

fn map() -> MapNode<()> {
    MapNode {
        list: key("items"),
        item: key("item"),
        body: (),
        output: key("out"),
        results: key("outs"),
    }
}

#[test]
fn given_three_items_when_derived_then_one_state_per_item_in_order() {
    let base = state(&["a", "b", "c"]);
    let derived = map().derive_items(&base).unwrap();
    let items: Vec<&str> = derived
        .iter()
        .map(|s| s.str(&key("item")).unwrap())
        .collect();
    assert_eq!(items, vec!["a", "b", "c"]);
    assert_eq!(base.str(&key("item")).unwrap(), "");
}

#[test]
fn given_empty_list_when_derived_then_no_state() {
    assert!(map().derive_items(&state(&[])).unwrap().is_empty());
}

#[test]
fn given_body_sets_output_when_absorbed_then_append_of_output() {
    let base = state(&["a"]);
    let mut derived = map().derive_items(&base).unwrap().remove(0);
    let updates: Vec<Update<Chat, String>> = vec![Update::Assign {
        key: key("out"),
        value: Value::str("A"),
    }];
    match map().absorb(&mut derived, updates).unwrap() {
        Update::Append { key: k, value } => {
            assert_eq!(k.as_str(), "outs");
            assert!(matches!(value, Value::Str(ref s) if s == "A"));
        }
        other => panic!("expected an append, got {other:?}"),
    }
}

#[test]
fn given_body_omits_output_when_absorbed_then_initial_output_appended() {
    let base = state(&["a"]);
    let mut derived = map().derive_items(&base).unwrap().remove(0);
    match map().absorb::<Chat, String>(&mut derived, Vec::new()).unwrap() {
        Update::Append { value, .. } => {
            assert!(matches!(value, Value::Str(ref s) if s == "initial"))
        }
        other => panic!("expected an append, got {other:?}"),
    }
}

#[test]
fn given_body_updates_refused_when_absorbed_then_error_given() {
    let base = state(&["a"]);
    let mut derived = map().derive_items(&base).unwrap().remove(0);
    let updates: Vec<Update<Chat, String>> = vec![Update::Assign {
        key: key("out"),
        value: Value::integer(1),
    }];
    assert!(matches!(
        map().absorb(&mut derived, updates),
        Err(GraphError::KindMismatch { .. })
    ));
}

#[test]
fn given_list_key_of_other_kind_when_derived_then_mismatch() {
    let node = MapNode {
        list: key("out"),
        item: key("item"),
        body: (),
        output: key("out"),
        results: key("outs"),
    };
    assert!(matches!(
        node.derive_items(&state(&["a"])),
        Err(GraphError::KindMismatch { .. })
    ));
}

fn assign_out(text: &str) -> Vec<Update<Chat, String>> {
    vec![Update::Assign {
        key: key("out"),
        value: Value::str(text),
    }]
}

fn appended_text(update: &Update<Chat, String>) -> String {
    match update {
        Update::Append { key: k, value: Value::Str(s) } if k.as_str() == "outs" => s.clone(),
        _ => panic!("not an append of a string to outs"),
    }
}

#[test]
fn given_every_run_ok_when_collected_then_appends_in_item_order() {
    let base = state(&["a", "b", "c"]);
    let deriveds = map().derive_items(&base).unwrap();
    let outputs: Vec<Result<Vec<Update<Chat, String>>, String>> =
        vec![Ok(assign_out("A")), Ok(Vec::new()), Ok(assign_out("C"))];
    let (absorbed, result) = map().collect_appends(deriveds, outputs);
    assert_eq!(absorbed, 3);
    let texts: Vec<String> = result.ok().unwrap().iter().map(appended_text).collect();
    assert_eq!(texts, vec!["A", "initial", "C"]);
}

#[test]
fn given_second_run_failed_when_collected_then_its_error_after_one_item() {
    let base = state(&["a", "b", "c"]);
    let deriveds = map().derive_items(&base).unwrap();
    let outputs: Vec<Result<Vec<Update<Chat, String>>, String>> = vec![
        Ok(assign_out("A")),
        Err("boom".to_owned()),
        Err("later".to_owned()),
    ];
    let (absorbed, result) = map().collect_appends(deriveds, outputs);
    assert_eq!(absorbed, 1);
    assert!(matches!(result, Err(MapStop::Body(ref e)) if e == "boom"));
}

#[test]
fn given_first_updates_refused_when_collected_then_refusal_before_any_item() {
    let base = state(&["a", "b"]);
    let deriveds = map().derive_items(&base).unwrap();
    let refused = vec![Update::Assign {
        key: key("out"),
        value: Value::integer(1),
    }];
    let outputs: Vec<Result<Vec<Update<Chat, String>>, String>> =
        vec![Ok(refused), Ok(assign_out("B"))];
    let (absorbed, result) = map().collect_appends(deriveds, outputs);
    assert_eq!(absorbed, 0);
    assert!(matches!(result, Err(MapStop::Refused(GraphError::KindMismatch { .. }))));
}
