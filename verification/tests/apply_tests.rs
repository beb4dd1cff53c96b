use br_llm_graph::{GraphError, Key, KeyMap, Kind, Schema, State, Transcript, Update, Value};

/// A conversation of the tests: its entries, as text.
#[derive(Debug, Clone, PartialEq)]
struct Chat {
    entries: Vec<String>,
}

/// The edits a test conversation takes.
#[derive(Debug, Clone)]
enum Edit {
    Input(String),
    PushTurn(String),
    PushStep { turn: String, text: String },
    PushResult { turn: String, call: String },
}

impl Transcript<Edit> for Chat {
    fn edit(&self, edit: &Edit) -> Result<Chat, String> {
        let mut next = self.clone();
        match edit {
            Edit::Input(text) => next.entries.push(format!("input {text}")),
            Edit::PushTurn(id) => next.entries.push(format!("turn {id}")),
            Edit::PushStep { turn, text } => {
                if !self.entries.contains(&format!("turn {turn}")) {
                    return Err(format!("no turn {turn}"));
                }
                next.entries.push(format!("step {text}"));
            }
            Edit::PushResult { turn, call } => {
                if !self.entries.contains(&format!("turn {turn}")) {
                    return Err(format!("no turn {turn}"));
                }
                next.entries.push(format!("result {call}"));
            }
        }
        Ok(next)
    }
}

fn key(name: &str) -> Key {
    Key::new(name).unwrap()
}

fn state() -> State<Chat> {
    let schema = Schema::builder()
        .state(key("count"), Kind::Int)
        .state(key("items"), Kind::list(Kind::Str))
        .state(key("chat"), Kind::Conversation)
        .build();
    let mut values = KeyMap::new();
    values.insert(key("count"), Value::integer(0));
    values.insert(key("items"), Value::list(Vec::new()));
    values.insert(key("chat"), Value::conversation(Chat { entries: Vec::new() }));
    State::new(schema, values).unwrap()
}

#[test]
fn given_set_when_kind_matches_then_applied() {
    let mut state = state();
    state
        .apply_batch::<Edit>(vec![Update::Assign {
            key: key("count"),
            value: Value::integer(5),
        }])
        .unwrap();
    assert_eq!(state.integer(&key("count")).unwrap(), 5);
}

#[test]
fn given_set_when_kind_wrong_then_refused_and_unchanged() {
    let mut state = state();
    assert!(matches!(
        state.apply_batch::<Edit>(vec![Update::Assign {
            key: key("count"),
            value: Value::str("no"),
        }]),
        Err(GraphError::KindMismatch { .. })
    ));
    assert_eq!(state.integer(&key("count")).unwrap(), 0);
}

#[test]
fn given_append_when_list_then_pushed() {
    let mut state = state();
    state
        .apply_batch::<Edit>(vec![Update::Append {
            key: key("items"),
            value: Value::str("a"),
        }])
        .unwrap();
    assert_eq!(state.list(&key("items")).unwrap().len(), 1);
}

#[test]
fn given_append_on_non_list_when_applied_then_refused() {
    let mut state = state();
    assert!(matches!(
        state.apply_batch::<Edit>(vec![Update::Append {
            key: key("count"),
            value: Value::integer(1),
        }]),
        Err(GraphError::AppendNotList { .. })
    ));
}

#[test]
fn given_input_on_conversation_when_applied_then_entry_added() {
    let mut state = state();
    state
        .apply_batch(vec![Update::Edit {
            key: key("chat"),
            edit: Edit::Input("hi".to_owned()),
        }])
        .unwrap();
    assert_eq!(state.conversation(&key("chat")).unwrap().entries.len(), 1);
}

#[test]
fn given_input_on_non_conversation_when_applied_then_refused() {
    let mut state = state();
    assert!(matches!(
        state.apply_batch(vec![Update::Edit {
            key: key("count"),
            edit: Edit::Input("hi".to_owned()),
        }]),
        Err(GraphError::NotConversation { .. })
    ));
}

#[test]
fn given_push_turn_when_conversation_then_added() {
    let mut state = state();
    state
        .apply_batch(vec![Update::Edit {
            key: key("chat"),
            edit: Edit::PushTurn("t1".to_owned()),
        }])
        .unwrap();
    assert_eq!(state.conversation(&key("chat")).unwrap().entries.len(), 1);
}

#[test]
fn given_push_turn_on_non_conversation_when_applied_then_refused() {
    let mut state = state();
    assert!(matches!(
        state.apply_batch(vec![Update::Edit {
            key: key("count"),
            edit: Edit::PushTurn("t1".to_owned()),
        }]),
        Err(GraphError::NotConversation { .. })
    ));
}

#[test]
fn given_two_sets_on_same_key_when_batched_then_conflict() {
    let mut state = state();
    assert!(matches!(
        state.apply_batch::<Edit>(vec![
            Update::Assign {
                key: key("count"),
                value: Value::integer(1),
            },
            Update::Assign {
                key: key("count"),
                value: Value::integer(2),
            },
        ]),
        Err(GraphError::SetConflict { .. })
    ));
}

#[test]
fn given_two_appends_on_same_key_when_batched_then_both_applied() {
    let mut state = state();
    state
        .apply_batch::<Edit>(vec![
            Update::Append {
                key: key("items"),
                value: Value::str("a"),
            },
            Update::Append {
                key: key("items"),
                value: Value::str("b"),
            },
        ])
        .unwrap();
    assert_eq!(state.list(&key("items")).unwrap().len(), 2);
}

#[test]
fn given_batch_with_a_late_failure_when_applied_then_all_or_nothing() {
    let mut state = state();
    let outcome = state.apply_batch::<Edit>(vec![
        Update::Assign {
            key: key("count"),
            value: Value::integer(7),
        },
        Update::Append {
            key: key("count"),
            value: Value::integer(1),
        },
    ]);
    assert!(outcome.is_err());
    assert_eq!(state.integer(&key("count")).unwrap(), 0);
    assert!(state.list(&key("items")).unwrap().is_empty());
}

#[test]
fn given_refused_edit_when_applied_then_message_error_and_unchanged() {
    let mut state = state();
    let outcome = state.apply_batch(vec![
        Update::Edit {
            key: key("chat"),
            edit: Edit::Input("kept?".to_owned()),
        },
        Update::Edit {
            key: key("chat"),
            edit: Edit::PushStep {
                turn: "nope".to_owned(),
                text: "x".to_owned(),
            },
        },
    ]);
    match outcome {
        Err(GraphError::Message(message)) => assert_eq!(message, "no turn nope"),
        other => panic!("expected a message error, got {other:?}"),
    }
    assert!(state.conversation(&key("chat")).unwrap().entries.is_empty());
}

#[test]
fn given_set_on_undeclared_key_when_applied_then_unknown_key() {
    let mut state = state();
    assert!(matches!(
        state.apply_batch::<Edit>(vec![Update::Assign {
            key: key("stray"),
            value: Value::integer(1),
        }]),
        Err(GraphError::UnknownKey { .. })
    ));
}

#[test]
fn given_append_of_wrong_item_kind_when_applied_then_mismatch_names_element_kind() {
    let mut state = state();
    match state.apply_batch::<Edit>(vec![Update::Append {
        key: key("items"),
        value: Value::integer(3),
    }]) {
        Err(GraphError::KindMismatch { expected, found, .. }) => {
            assert_eq!(expected, Kind::Str);
            assert_eq!(found, "int");
        }
        other => panic!("expected a kind mismatch, got {other:?}"),
    }
}

#[test]
fn given_set_then_append_on_other_key_when_batched_then_both_applied_in_order() {
    let mut state = state();
    state
        .apply_batch(vec![
            Update::Assign {
                key: key("count"),
                value: Value::integer(4),
            },
            Update::Edit {
                key: key("chat"),
                edit: Edit::PushTurn("t1".to_owned()),
            },
            Update::Edit {
                key: key("chat"),
                edit: Edit::PushStep {
                    turn: "t1".to_owned(),
                    text: "hello".to_owned(),
                },
            },
        ])
        .unwrap();
    assert_eq!(state.integer(&key("count")).unwrap(), 4);
    assert_eq!(
        state.conversation(&key("chat")).unwrap().entries,
        vec!["turn t1".to_owned(), "step hello".to_owned()]
    );
}

#[test]
fn given_push_result_on_matching_turn_when_applied_then_added() {
    let mut state = state();
    state
        .apply_batch(vec![Update::Edit {
            key: key("chat"),
            edit: Edit::PushTurn("t1".to_owned()),
        }])
        .unwrap();
    state
        .apply_batch(vec![Update::Edit {
            key: key("chat"),
            edit: Edit::PushResult {
                turn: "t1".to_owned(),
                call: "c1".to_owned(),
            },
        }])
        .unwrap();
    let entries = &state.conversation(&key("chat")).unwrap().entries;
    assert!(entries.iter().any(|entry| entry == "result c1"));
}

#[test]
fn given_push_result_on_non_conversation_when_applied_then_refused() {
    let mut state = state();
    assert!(matches!(
        state.apply_batch(vec![Update::Edit {
            key: key("count"),
            edit: Edit::PushResult {
                turn: "t1".to_owned(),
                call: "c1".to_owned(),
            },
        }]),
        Err(GraphError::NotConversation { .. })
    ));
}

#[test]
fn given_push_step_to_missing_turn_when_applied_then_message_error() {
    let mut state = state();
    assert!(matches!(
        state.apply_batch(vec![Update::Edit {
            key: key("chat"),
            edit: Edit::PushStep {
                turn: "nope".to_owned(),
                text: "x".to_owned(),
            },
        }]),
        Err(GraphError::Message(_))
    ));
}
