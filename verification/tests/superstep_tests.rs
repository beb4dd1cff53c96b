use br_llm_graph::run::checkpoint::fail;
use br_llm_graph::run::inbox::absorb_message;
use br_llm_graph::run::settle::{apply_inputs, order_results, settle, settle_step};
use br_llm_graph::run::superstep::{
    Advance, advance, collect_targets, finish, initial_cursor, next_sets, present, stepping,
};
use br_llm_graph::{
    Always, Cursor, EndLabel, Graph, GraphBuilder, GraphError, Key, KeyMap, Kind, Message,
    NodeFault, NodeId, Schema, State, Target, Transcript, Update, Value,
};

type Work = &'static str;

#[derive(Debug, Clone, PartialEq)]
struct Chat {
    entries: Vec<String>,
}

impl Transcript<String> for Chat {
    fn edit(&self, edit: &String) -> Result<Chat, String> {
        let mut next = self.clone();
        next.entries.push(edit.clone());
        Ok(next)
    }
}

fn nid(name: &str) -> NodeId {
    NodeId::new(name).unwrap()
}

fn key(name: &str) -> Key {
    Key::new(name).unwrap()
}

fn label(name: &str) -> EndLabel {
    EndLabel::new(name).unwrap()
}

fn names(ids: &[NodeId]) -> Vec<&str> {
    ids.iter().map(|id| id.as_str()).collect()
}

fn schema() -> Schema {
    Schema::builder()
        .state(key("count"), Kind::Int)
        .state(key("chat"), Kind::Conversation)
        .build()
}

fn state() -> State<Chat> {
    let mut values = KeyMap::new();
    values.insert(key("count"), Value::integer(0));
    values.insert(key("chat"), Value::conversation(Chat { entries: Vec::new() }));
    State::new(schema(), values).unwrap()
}

/// Fan out from `start` to `left` and `right`, which both lead to the join
/// `merge`.
fn fan_graph() -> Graph<Work, Always> {
    GraphBuilder::new(schema())
        .entry(nid("start"))
        .node(nid("start"), "start")
        .node(nid("left"), "left")
        .node(nid("right"), "right")
        .join(nid("merge"), "merge")
        .edge(nid("start"), Always(Target::Node(nid("left"))))
        .edge(nid("left"), Always(Target::Node(nid("merge"))))
        .edge(nid("right"), Always(Target::Node(nid("merge"))))
        .edge(nid("merge"), Always(Target::End(label("done"))))
        .build()
        .unwrap()
}

fn assign(value: i64) -> Vec<Update<Chat, String>> {
    vec![Update::Assign {
        key: key("count"),
        value: Value::integer(value),
    }]
}

#[test]
fn given_fan_out_when_next_sets_then_join_waits_for_plain_nodes() {
    let graph = fan_graph();
    let (active, deferred) = next_sets(&graph, vec![nid("merge"), nid("right")], &Vec::new());
    assert_eq!(names(&active), vec!["right"]);
    assert_eq!(names(&deferred), vec!["merge"]);
    let (active, deferred) = next_sets(&graph, vec![nid("merge")], &deferred);
    assert_eq!(names(&active), vec!["merge"]);
    assert!(deferred.is_empty());
}

#[test]
fn given_repeated_targets_when_next_sets_then_each_node_once_first_first() {
    let graph = fan_graph();
    let (active, deferred) = next_sets(
        &graph,
        vec![nid("right"), nid("left"), nid("right")],
        &vec![nid("left")],
    );
    assert_eq!(names(&active), vec!["right", "left"]);
    assert!(deferred.is_empty());
}

#[test]
fn given_edge_targets_when_collected_then_nodes_once_and_ends_in_order() {
    let graph = fan_graph();
    let outputs = vec![
        (
            nid("left"),
            Ok(vec![
                Target::Node(nid("merge")),
                Target::End(label("a")),
            ]),
        ),
        (
            nid("right"),
            Ok(vec![
                Target::Node(nid("merge")),
                Target::End(label("b")),
                Target::Node(nid("start")),
            ]),
        ),
    ];
    let (nodes, ends) = collect_targets(&graph, outputs).unwrap();
    assert_eq!(names(&nodes), vec!["merge", "start"]);
    let ends: Vec<&str> = ends.iter().map(|l| l.as_str()).collect();
    assert_eq!(ends, vec!["a", "b"]);
}

#[test]
fn given_edge_targets_unknown_node_when_collected_then_unknown_node_error() {
    let graph = fan_graph();
    let outputs = vec![(
        nid("start"),
        Ok(vec![Target::Node(nid("left")), Target::Node(nid("ghost"))]),
    )];
    match collect_targets(&graph, outputs) {
        Err(GraphError::UnknownNode { id }) => assert_eq!(id.as_str(), "ghost"),
        other => panic!("expected an unknown node, got {other:?}"),
    }
}

#[test]
fn given_edge_returning_no_target_when_collected_then_empty_edge_error() {
    let graph = fan_graph();
    let outputs = vec![
        (nid("left"), Ok(vec![Target::Node(nid("merge"))])),
        (nid("right"), Ok(Vec::new())),
    ];
    match collect_targets(&graph, outputs) {
        Err(GraphError::EmptyEdge { node }) => assert_eq!(node.as_str(), "right"),
        other => panic!("expected an empty edge, got {other:?}"),
    }
}

#[test]
fn given_failing_edge_when_collected_then_its_error_stops_the_rest() {
    let graph = fan_graph();
    let outputs = vec![
        (nid("left"), Err(GraphError::MissingEntry)),
        (nid("right"), Ok(Vec::new())),
    ];
    assert!(matches!(
        collect_targets(&graph, outputs),
        Err(GraphError::MissingEntry)
    ));
}

#[test]
fn given_two_distinct_ends_when_finished_then_ambiguous() {
    match finish(vec![label("a"), label("b"), label("a")]) {
        Err(GraphError::AmbiguousEnd { labels }) => {
            let labels: Vec<&str> = labels.iter().map(|l| l.as_str()).collect();
            assert_eq!(labels, vec!["a", "b"]);
        }
        other => panic!("expected an ambiguous end, got {other:?}"),
    }
    assert_eq!(finish(vec![label("x"), label("x")]).unwrap().as_str(), "x");
    assert!(matches!(
        finish(Vec::new()),
        Err(GraphError::AmbiguousEnd { labels }) if labels.is_empty()
    ));
}

#[test]
fn given_end_mixed_with_node_target_when_advanced_then_run_goes_on() {
    match advance(vec![nid("left")], Vec::new(), vec![label("early")], false).unwrap() {
        Advance::Continue(cursor) => assert_eq!(names(&cursor.active), vec!["left"]),
        other => panic!("expected the run to go on, got {other:?}"),
    }
    match advance(Vec::new(), Vec::new(), vec![label("done")], true).unwrap() {
        Advance::Finish(end) => assert_eq!(end.as_str(), "done"),
        other => panic!("expected the run to finish, got {other:?}"),
    }
    match advance(vec![nid("left")], vec![nid("merge")], Vec::new(), true).unwrap() {
        Advance::Pause(cursor) => {
            assert_eq!(names(&cursor.active), vec!["left"]);
            assert_eq!(names(&cursor.deferred), vec!["merge"]);
        }
        other => panic!("expected a pause, got {other:?}"),
    }
}

#[test]
fn given_active_nodes_when_stepping_then_declaration_order() {
    let graph = fan_graph();
    let active = vec![nid("merge"), nid("ghost"), nid("left")];
    assert_eq!(names(&stepping(&graph, &active)), vec!["left", "merge"]);
    assert_eq!(names(&present(&graph, &active)), vec!["merge", "left"]);
}

#[test]
fn given_no_cursor_when_started_then_entry_alone() {
    let graph = fan_graph();
    let cursor = initial_cursor(&graph, None);
    assert_eq!(names(&cursor.active), vec!["start"]);
    assert!(cursor.deferred.is_empty());
    let given = Cursor::new(vec![nid("right")], vec![nid("merge")]);
    let cursor = initial_cursor(&graph, Some(given));
    assert_eq!(names(&cursor.active), vec!["right"]);
}

#[test]
fn given_checkpoint_with_unknown_node_when_validated_then_refused() {
    let graph = fan_graph();
    let cursor = Cursor::new(vec![nid("left")], vec![nid("ghost"), nid("other")]);
    match graph.validate_cursor(&cursor) {
        Err(GraphError::UnknownNode { id }) => assert_eq!(id.as_str(), "ghost"),
        other => panic!("expected an unknown node, got {other:?}"),
    }
    assert!(graph.validate_cursor(&Cursor::new(vec![nid("left")], Vec::new())).is_ok());
}

#[test]
fn given_failing_node_beside_success_when_settled_then_success_kept_failure_reported() {
    let graph = fan_graph();
    let mut state = state();
    let results = vec![
        (nid("right"), Err(NodeFault::Returned("boom".to_owned()))),
        (nid("left"), Ok(assign(3))),
    ];
    let (applied, failure) = settle(&graph, &mut state, results);
    assert_eq!(names(&applied), vec!["left"]);
    assert_eq!(state.integer(&key("count")).unwrap(), 3);
    match failure {
        Some(GraphError::NodeFailed {
            node,
            source: NodeFault::Returned(message),
        }) => {
            assert_eq!(node.as_str(), "right");
            assert_eq!(message, "boom");
        }
        other => panic!("expected a node failure, got {other:?}"),
    }
}

#[test]
fn given_two_nodes_set_same_key_when_settled_then_declaration_order_wins() {
    let graph = fan_graph();
    let mut state = state();
    let results = vec![(nid("right"), Ok(assign(2))), (nid("left"), Ok(assign(1)))];
    let (applied, failure) = settle(&graph, &mut state, results);
    assert!(failure.is_none());
    assert_eq!(names(&applied), vec!["left", "right"]);
    assert_eq!(state.integer(&key("count")).unwrap(), 2);
}

#[test]
fn given_refused_batch_when_settled_then_refusal_reported_and_later_batches_applied() {
    let graph = fan_graph();
    let mut state = state();
    let bad = vec![Update::Assign {
        key: key("count"),
        value: Value::str("no"),
    }];
    let results = vec![(nid("start"), Ok(bad)), (nid("merge"), Ok(assign(8)))];
    let (applied, failure) = settle(&graph, &mut state, results);
    assert_eq!(names(&applied), vec!["merge"]);
    assert_eq!(state.integer(&key("count")).unwrap(), 8);
    match failure {
        Some(GraphError::NodeFailed {
            node,
            source: NodeFault::Refused(error),
        }) => {
            assert_eq!(node.as_str(), "start");
            assert!(matches!(*error, GraphError::KindMismatch { .. }));
        }
        other => panic!("expected a refused batch, got {other:?}"),
    }
}

#[test]
fn given_results_out_of_order_when_ordered_then_declaration_order_and_last_counts() {
    let graph = fan_graph();
    let order = graph.order();
    let ordered = order_results(
        &order,
        vec![(nid("merge"), 1), (nid("start"), 2), (nid("merge"), 3)],
    );
    let seen: Vec<(&str, i32)> = ordered.iter().map(|(id, v)| (id.as_str(), *v)).collect();
    assert_eq!(seen, vec![("start", 2), ("merge", 3)]);
}

#[test]
fn given_inbox_input_targets_non_conversation_key_when_applied_then_not_conversation() {
    let mut state = state();
    let outcome = apply_inputs(&mut state, vec![(key("count"), "hi".to_owned())]);
    assert!(matches!(outcome, Err(GraphError::NotConversation { .. })));
    assert!(apply_inputs::<Chat, String>(&mut state, Vec::new()).is_ok());
    apply_inputs(&mut state, vec![(key("chat"), "hello".to_owned())]).unwrap();
    assert_eq!(
        state.conversation(&key("chat")).unwrap().entries,
        vec!["hello".to_owned()]
    );
}

#[test]
fn given_messages_during_superstep_when_absorbed_then_held_paused_or_cancelled() {
    let mut held: Vec<(Key, String)> = Vec::new();
    let mut pause = false;
    let input = Message::Input {
        key: key("chat"),
        input: "hi".to_owned(),
    };
    assert!(!absorb_message(input, &mut held, &mut pause));
    assert!(!absorb_message(Message::Resume, &mut held, &mut pause));
    assert!(!pause);
    assert!(!absorb_message(Message::Pause, &mut held, &mut pause));
    assert!(pause);
    assert!(absorb_message(Message::Cancel, &mut held, &mut pause));
    assert_eq!(held.len(), 1);
    assert_eq!(held[0].0.as_str(), "chat");
}

#[test]
fn given_failure_when_saved_then_checkpoint_holds_where_run_stood() {
    let failure = fail(
        state(),
        &vec![nid("left")],
        &vec![nid("merge")],
        GraphError::MissingEntry,
    );
    assert_eq!(names(&failure.checkpoint.cursor.active), vec!["left"]);
    assert_eq!(names(&failure.checkpoint.cursor.deferred), vec!["merge"]);
    assert!(matches!(failure.error, GraphError::MissingEntry));
}

#[test]
fn given_input_held_when_node_fails_then_input_applied_and_failure_reported() {
    let graph = fan_graph();
    let mut state = state();
    let results = vec![(nid("start"), Err(NodeFault::Panic("boom".to_owned())))];
    let held = vec![(key("chat"), "late".to_owned())];
    let (applied, failure) = settle_step(&graph, &mut state, results, held);
    assert!(applied.is_empty());
    assert!(matches!(failure, Some(GraphError::NodeFailed { .. })));
    assert_eq!(
        state.conversation(&key("chat")).unwrap().entries,
        vec!["late".to_owned()]
    );
}

#[test]
fn given_refused_input_when_superstep_settled_then_input_refusal_reported() {
    let graph = fan_graph();
    let mut state = state();
    let results = vec![(nid("start"), Ok(assign(5)))];
    let held = vec![(key("count"), "oops".to_owned())];
    let (applied, failure) = settle_step(&graph, &mut state, results, held);
    assert_eq!(names(&applied), vec!["start"]);
    assert!(matches!(failure, Some(GraphError::NotConversation { .. })));
    assert_eq!(state.integer(&key("count")).unwrap(), 5);
}
