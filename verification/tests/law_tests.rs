use br_llm_graph::run::settle::settle;
use br_llm_graph::run::superstep::next_sets;
use br_llm_graph::{
    Always, EndLabel, GraphBuilder, Key, KeyMap, Kind, NodeId, Schema, State, Target, Transcript,
    Update, Value,
};

/// A conversation of the tests: its entries.
#[derive(Debug, Clone, PartialEq)]
struct Chat(Vec<String>);

impl Transcript<String> for Chat {
    fn edit(&self, edit: &String) -> Result<Chat, String> {
        let mut next = self.clone();
        next.0.push(edit.clone());
        Ok(next)
    }
}

fn key(name: &str) -> Key {
    Key::new(name).unwrap()
}

fn nid(name: &str) -> NodeId {
    NodeId::new(name).unwrap()
}

fn schema() -> Schema {
    Schema::builder()
        .state(key("count"), Kind::Int)
        .state(key("items"), Kind::list(Kind::Str))
        .build()
}

fn state() -> State<Chat> {
    let mut values = KeyMap::new();
    values.insert(key("count"), Value::integer(0));
    values.insert(key("items"), Value::list(Vec::new()));
    State::new(schema(), values).unwrap()
}

#[test]
fn given_assignment_when_applied_then_reads_back() {
    let mut state = state();
    let batch: Vec<Update<Chat, String>> = vec![Update::Assign {
        key: key("count"),
        value: Value::integer(41),
    }];
    state.apply_batch(batch).unwrap();
    assert_eq!(state.integer(&key("count")).unwrap(), 41);
}

#[test]
fn given_refused_batch_when_applied_then_state_unchanged() {
    let mut state = state();
    let batch: Vec<Update<Chat, String>> = vec![
        Update::Append {
            key: key("items"),
            value: Value::str("kept?"),
        },
        Update::Assign {
            key: key("count"),
            value: Value::bool(true),
        },
    ];
    assert!(state.apply_batch(batch).is_err());
    assert!(state.list(&key("items")).unwrap().is_empty());
    assert_eq!(state.integer(&key("count")).unwrap(), 0);
}

#[test]
fn given_later_declared_node_when_both_assign_then_it_wins_whatever_arrival() {
    let graph = GraphBuilder::<&str, Always>::new(schema())
        .entry(nid("first"))
        .node(nid("first"), "first")
        .node(nid("second"), "second")
        .edge(nid("first"), Always(Target::End(EndLabel::new("done").unwrap())))
        .edge(nid("second"), Always(Target::End(EndLabel::new("done").unwrap())))
        .build()
        .unwrap();
    for flip in [false, true] {
        let mut state = state();
        let a: Vec<Update<Chat, String>> = vec![Update::Assign {
            key: key("count"),
            value: Value::integer(1),
        }];
        let b: Vec<Update<Chat, String>> = vec![Update::Assign {
            key: key("count"),
            value: Value::integer(2),
        }];
        let mut results = vec![(nid("first"), Ok(a)), (nid("second"), Ok(b))];
        if flip {
            results.reverse();
        }
        let (_, failure) = settle(&graph, &mut state, results);
        assert!(failure.is_none());
        assert_eq!(state.integer(&key("count")).unwrap(), 2);
    }
}

#[test]
fn given_pending_nodes_when_next_sets_then_each_scheduled_once() {
    let graph = GraphBuilder::<&str, Always>::new(schema())
        .entry(nid("a"))
        .node(nid("a"), "a")
        .join(nid("j"), "j")
        .edge(nid("a"), Always(Target::Node(nid("j"))))
        .edge(nid("j"), Always(Target::End(EndLabel::new("done").unwrap())))
        .build()
        .unwrap();
    let (active, deferred) = next_sets(&graph, vec![nid("j"), nid("a"), nid("a")], &vec![nid("j")]);
    let active: Vec<&str> = active.iter().map(|id| id.as_str()).collect();
    let deferred: Vec<&str> = deferred.iter().map(|id| id.as_str()).collect();
    assert_eq!(active, vec!["a"]);
    assert_eq!(deferred, vec!["j"]);
}

#[test]
fn given_empty_list_when_matched_against_any_list_kind_then_matches() {
    for element in [Kind::Int, Kind::Str, Kind::list(Kind::Bool), Kind::Conversation] {
        assert!(Value::<Chat>::list(Vec::new()).matches(&Kind::list(element)));
    }
}

#[test]
fn given_interleaved_declarations_when_built_then_each_map_keeps_its_last_kinds() {
    let schema = Schema::builder()
        .state(key("count"), Kind::Str)
        .config(key("model"), Kind::Str)
        .state(key("count"), Kind::Int)
        .config(key("count"), Kind::Bool)
        .state(key("items"), Kind::list(Kind::Str))
        .build();
    assert_eq!(schema.state.len(), 2);
    assert_eq!(schema.state.get(&key("count")), Some(&Kind::Int));
    assert_eq!(schema.state.get(&key("items")), Some(&Kind::list(Kind::Str)));
    assert_eq!(schema.config.len(), 2);
    assert_eq!(schema.config.get(&key("model")), Some(&Kind::Str));
    assert_eq!(schema.config.get(&key("count")), Some(&Kind::Bool));
    let empty = Schema::builder().build();
    assert_eq!(empty.state.len(), 0);
    assert_eq!(empty.config.len(), 0);
}
