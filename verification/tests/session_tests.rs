use br_llm_graph::session::Serve;
use br_llm_graph::{
    Always, Checkpoint, Cursor, EndLabel, Ended, Graph, GraphBuilder, GraphError, Key, KeyMap,
    Kind, Message, NodeId, Outcome, RunFailure, Schema, SessionCore, Start, State, Target,
    Transcript, Update, Value,
};

#[derive(Debug, Clone, PartialEq)]
struct Chat {
    entries: Vec<String>,
}

impl Transcript<String> for Chat {
    fn edit(&self, edit: &String) -> Result<Chat, String> {
        let mut next = self.clone();
        next.entries.push(edit.clone());
        Ok(next)
    }
}

fn key(name: &str) -> Key {
    Key::new(name).unwrap()
}

fn nid(name: &str) -> NodeId {
    NodeId::new(name).unwrap()
}

fn schema() -> Schema {
    Schema::builder()
        .state(key("chat"), Kind::Conversation)
        .state(key("count"), Kind::Int)
        .build()
}

fn state(count: i64) -> State<Chat> {
    let mut values = KeyMap::new();
    values.insert(key("chat"), Value::conversation(Chat { entries: Vec::new() }));
    values.insert(key("count"), Value::integer(count));
    State::new(schema(), values).unwrap()
}

fn graph() -> Graph<&'static str, Always> {
    GraphBuilder::new(schema())
        .entry(nid("a"))
        .node(nid("a"), "a")
        .node(nid("b"), "b")
        .edge(nid("a"), Always(Target::Node(nid("b"))))
        .edge(nid("b"), Always(Target::End(EndLabel::new("done").unwrap())))
        .build()
        .unwrap()
}

fn input(text: &str) -> Option<Message<String>> {
    Some(Message::Input {
        key: key("chat"),
        input: text.to_owned(),
    })
}

#[test]
fn given_paused_core_when_input_then_waits_and_resume_runs() {
    let mut core = SessionCore::new(state(0));
    assert!(matches!(core.on_message::<String>(Some(Message::Pause)), Serve::Wait));
    assert!(core.is_paused());
    assert!(matches!(core.on_message(input("hi")), Serve::Wait));
    assert_eq!(
        core.state().conversation(&key("chat")).unwrap().entries,
        vec!["hi".to_owned()]
    );
    assert!(matches!(core.on_message::<String>(Some(Message::Resume)), Serve::Run));
    assert!(!core.is_paused());
}

#[test]
fn given_resume_without_pause_when_served_then_ignored() {
    let mut core = SessionCore::new(state(0));
    assert!(matches!(core.on_message::<String>(Some(Message::Resume)), Serve::Wait));
    assert!(matches!(core.on_message(input("go")), Serve::Run));
}

#[test]
fn given_cancel_or_no_sender_when_served_then_cancelled_with_checkpoint() {
    let mut core = SessionCore::new(state(4));
    match core.on_message::<String>(Some(Message::Cancel)) {
        Serve::End(Ended::Cancelled { checkpoint }) => {
            assert_eq!(checkpoint.state.integer(&key("count")).unwrap(), 4);
            assert!(checkpoint.cursor.is_empty());
        }
        other => panic!("expected a cancel, got {other:?}"),
    }
    assert!(matches!(
        core.on_message::<String>(None),
        Serve::End(Ended::Cancelled { .. })
    ));
}

#[test]
fn given_input_to_non_conversation_when_served_then_failed() {
    let mut core = SessionCore::new(state(0));
    let message = Some(Message::Input {
        key: key("count"),
        input: "hi".to_owned(),
    });
    match core.on_message(message) {
        Serve::End(Ended::Failed { error, .. }) => {
            assert!(matches!(error, GraphError::NotConversation { .. }))
        }
        other => panic!("expected a failure, got {other:?}"),
    }
}

#[test]
fn given_pause_checkpoint_when_resumed_then_cursor_kept() {
    let checkpoint = Checkpoint::new(state(1), Cursor::new(vec![nid("b")], Vec::new()));
    let mut core = SessionCore::resume(&graph(), checkpoint).unwrap();
    let (taken, cursor) = core.take_run();
    assert_eq!(taken.integer(&key("count")).unwrap(), 1);
    let cursor = cursor.unwrap();
    assert_eq!(cursor.active[0].as_str(), "b");
    assert!(core.take_run().1.is_none());
}

#[test]
fn given_empty_cursor_checkpoint_when_resumed_then_behaves_like_new() {
    let checkpoint = Checkpoint::new(state(1), Cursor::empty());
    let mut core = SessionCore::resume(&graph(), checkpoint).unwrap();
    assert!(core.take_run().1.is_none());
}

#[test]
fn given_unknown_node_checkpoint_when_resumed_then_refused() {
    let checkpoint = Checkpoint::new(state(1), Cursor::new(vec![nid("ghost")], Vec::new()));
    match SessionCore::resume(&graph(), checkpoint) {
        Err(GraphError::UnknownNode { id }) => assert_eq!(id.as_str(), "ghost"),
        Err(other) => panic!("expected an unknown node, got {other:?}"),
        Ok(_) => panic!("expected a refusal"),
    }
}

#[test]
fn given_run_outcomes_when_taken_back_then_session_follows() {
    let mut core = SessionCore::new(state(0));
    let finished = Outcome::Finished {
        state: state(5),
        end: EndLabel::new("done").unwrap(),
    };
    assert!(matches!(core.begin(Start::Now), Serve::Run));
    assert!(core.after_run(Ok(finished)).is_none());
    assert_eq!(core.state().integer(&key("count")).unwrap(), 5);
    assert!(!core.is_paused());

    let paused = Outcome::Paused {
        checkpoint: Checkpoint::new(state(6), Cursor::new(vec![nid("b")], Vec::new())),
    };
    assert!(matches!(core.begin(Start::Now), Serve::Run));
    assert!(core.after_run(Ok(paused)).is_none());
    assert!(core.is_paused());
    let checkpoint = core.checkpoint();
    assert_eq!(checkpoint.cursor.active[0].as_str(), "b");
    assert_eq!(checkpoint.state.integer(&key("count")).unwrap(), 6);

    let failure = RunFailure {
        checkpoint: Checkpoint::new(state(7), Cursor::new(vec![nid("a")], Vec::new())),
        error: GraphError::MissingEntry,
    };
    assert!(matches!(core.begin(Start::Now), Serve::Run));
    match core.after_run(Err(failure)) {
        Some(Ended::Failed { checkpoint, error }) => {
            assert!(matches!(error, GraphError::MissingEntry));
            assert_eq!(checkpoint.state.integer(&key("count")).unwrap(), 7);
            assert_eq!(checkpoint.cursor.active[0].as_str(), "a");
        }
        other => panic!("expected a failure, got {other:?}"),
    }
    assert!(core.is_paused());

    let cancelled = Outcome::Cancelled {
        checkpoint: Checkpoint::new(state(8), Cursor::new(vec![nid("a")], Vec::new())),
    };
    assert!(matches!(core.begin(Start::Now), Serve::Run));
    assert!(matches!(
        core.after_run(Ok(cancelled)),
        Some(Ended::Cancelled { .. })
    ));
    assert!(!core.is_paused());
}

/// Stands for a run of the linear graph: it sets the count to 5 and
/// finishes; its result is taken back by the core.
fn finish_run(core: &mut SessionCore<Chat>) -> Option<Ended<Chat>> {
    let (mut state, _cursor) = core.take_run();
    let step: Vec<Update<Chat, String>> = vec![Update::Assign {
        key: key("count"),
        value: Value::integer(5),
    }];
    state.apply_batch(step).unwrap();
    core.after_run(Ok(Outcome::Finished {
        state,
        end: EndLabel::new("done").unwrap(),
    }))
}

#[test]
fn given_input_then_cancel_queued_when_served_then_run_completes_before_cancel() {
    let mut core = SessionCore::new(state(0));
    assert!(matches!(core.begin(Start::OnInput), Serve::Wait));
    assert!(matches!(core.on_message(input("go")), Serve::Run));
    assert!(finish_run(&mut core).is_none());
    match core.on_message::<String>(Some(Message::Cancel)) {
        Serve::End(Ended::Cancelled { checkpoint }) => {
            assert_eq!(checkpoint.state.integer(&key("count")).unwrap(), 5);
            assert_eq!(
                checkpoint.state.conversation(&key("chat")).unwrap().entries.len(),
                1
            );
        }
        other => panic!("expected a cancel, got {other:?}"),
    }
}

#[test]
fn given_pause_input_resume_cancel_queued_when_served_then_run_on_resume_completes() {
    let mut core = SessionCore::new(state(0));
    assert!(matches!(core.begin(Start::OnInput), Serve::Wait));
    assert!(matches!(core.on_message::<String>(Some(Message::Pause)), Serve::Wait));
    assert!(matches!(core.on_message(input("while paused")), Serve::Wait));
    assert_eq!(core.state().integer(&key("count")).unwrap(), 0);
    assert!(matches!(core.on_message::<String>(Some(Message::Resume)), Serve::Run));
    assert!(finish_run(&mut core).is_none());
    match core.on_message::<String>(Some(Message::Cancel)) {
        Serve::End(Ended::Cancelled { checkpoint }) => {
            assert_eq!(checkpoint.state.integer(&key("count")).unwrap(), 5);
            assert_eq!(
                checkpoint.state.conversation(&key("chat")).unwrap().entries.len(),
                1
            );
        }
        other => panic!("expected a cancel, got {other:?}"),
    }
}

#[test]
fn given_start_now_when_served_then_runs_at_once() {
    let mut core = SessionCore::new(state(0));
    assert!(matches!(core.begin(Start::Now), Serve::Run));
    assert!(finish_run(&mut core).is_none());
    assert_eq!(core.state().integer(&key("count")).unwrap(), 5);
}
