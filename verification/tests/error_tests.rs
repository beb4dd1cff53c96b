use br_llm_graph::{
    Checkpoint, Cursor, EndLabel, GraphError, Key, Kind, NodeFault, NodeId, RunFailure, State,
};

#[test]
fn given_errors_when_written_then_messages_name_their_parts() {
    let key = Key::new("count").unwrap();
    assert_eq!(
        GraphError::MissingKey { key: key.clone() }.to_string(),
        "key count is declared but missing"
    );
    assert_eq!(
        GraphError::KindMismatch {
            key,
            expected: Kind::list(Kind::Str),
            found: "int",
        }
        .to_string(),
        "key count expects kind list<str> but found a int value"
    );
    assert_eq!(
        GraphError::MissingEntry.to_string(),
        "the graph has no entry node"
    );
}

#[test]
fn given_quoted_values_when_written_then_debug_quoted() {
    assert_eq!(
        GraphError::SchemaMismatch {
            found: "v\"2".to_owned()
        }
        .to_string(),
        "unexpected schema \"v\\\"2\""
    );
    assert_eq!(
        GraphError::Identifier {
            field: "key",
            value: "Bad".to_owned()
        }
        .to_string(),
        "key \"Bad\" is not a valid identifier [a-z][a-z0-9_]*"
    );
}

#[test]
fn given_node_failure_when_written_then_fault_and_cause_included() {
    let refused = GraphError::NodeFailed {
        node: NodeId::new("writer").unwrap(),
        source: NodeFault::Refused(Box::new(GraphError::SetConflict {
            key: Key::new("count").unwrap(),
        })),
    };
    assert_eq!(
        refused.to_string(),
        "node writer failed: its updates were refused: key count is set twice in one batch"
    );
    assert_eq!(
        NodeFault::Panic("oops".to_owned()).to_string(),
        "panicked: oops"
    );
    assert_eq!(
        NodeFault::Returned("bad".to_owned()).to_string(),
        "returned an error: bad"
    );
}

#[test]
fn given_ambiguous_end_when_written_then_labels_listed() {
    let labels = vec![EndLabel::new("a").unwrap(), EndLabel::new("b").unwrap()];
    assert_eq!(
        GraphError::AmbiguousEnd { labels }.to_string(),
        "the run ended with several labels [a, b]"
    );
    assert_eq!(
        GraphError::AmbiguousEnd { labels: Vec::new() }.to_string(),
        "the run ended with several labels []"
    );
}

#[test]
fn given_kinds_when_written_then_nested_lists_bracketed() {
    assert_eq!(Kind::Int.to_string(), "int");
    assert_eq!(
        Kind::list(Kind::list(Kind::Conversation)).to_string(),
        "list<list<conversation>>"
    );
}

#[test]
fn given_run_failure_when_written_then_prefixed() {
    let failure: RunFailure<Vec<String>> = RunFailure {
        checkpoint: Checkpoint::new(State::empty(), Cursor::empty()),
        error: GraphError::MissingEntry,
    };
    assert_eq!(failure.to_string(), "run failed: the graph has no entry node");
}
