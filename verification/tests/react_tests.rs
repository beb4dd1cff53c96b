use br_llm_graph::react::system::source_key;
use br_llm_graph::react::tools::{
    check_partition, declared_tools, gather_call_updates, last_turn_position, llm_edge_targets, owned_calls,
    pending_positions, unsafe_calls,
};
use br_llm_graph::{
    Config, EndLabel, GraphError, Key, KeyMap, Kind, NodeId, Schema, Source, State, Target, Value,
    build_system,
};

type Chat = Vec<String>;

fn key(name: &str) -> Key {
    Key::new(name).unwrap()
}

fn names(list: &[&str]) -> Vec<String> {
    list.iter().map(|s| (*s).to_owned()).collect()
}

fn schema() -> Schema {
    Schema::builder()
        .state(key("notes"), Kind::list(Kind::Str))
        .state(key("focus"), Kind::Str)
        .state(key("count"), Kind::Int)
        .state(key("enabled"), Kind::list(Kind::Str))
        .config(key("base"), Kind::Str)
        .config(key("rules"), Kind::list(Kind::Str))
        .build()
}

fn state() -> State<Chat> {
    let mut values = KeyMap::new();
    values.insert(
        key("notes"),
        Value::list(vec![Value::str("note one"), Value::str("note two")]),
    );
    values.insert(key("focus"), Value::str("stay on task"));
    values.insert(key("count"), Value::integer(2));
    values.insert(key("enabled"), Value::list(vec![Value::str("tally")]));
    State::new(schema(), values).unwrap()
}

fn config() -> Config<Chat> {
    let mut values = KeyMap::new();
    values.insert(key("base"), Value::str("You are helpful."));
    values.insert(key("rules"), Value::list(Vec::new()));
    Config::new(&schema(), values).unwrap()
}

#[test]
fn react_partition_tests_given_tool_not_covered_when_react_loop_added_then_refused() {
    let result = check_partition(&names(&[]), &names(&["echo"]));
    assert!(matches!(result.err(), Some(GraphError::ToolNotCovered { .. })));
}

#[test]
fn react_partition_tests_given_tool_covered_twice_when_react_loop_added_then_refused() {
    let result = check_partition(&names(&["echo", "echo"]), &names(&["echo"]));
    assert!(matches!(result.err(), Some(GraphError::ToolCoveredTwice { .. })));
}

#[test]
fn react_partition_tests_given_tool_node_tool_not_declared_when_react_loop_added_then_refused() {
    let result = check_partition(&names(&["echo", "tally"]), &names(&["echo"]));
    assert!(matches!(result.err(), Some(GraphError::ToolNotDeclared { .. })));
}

#[test]
fn react_tests_given_tool_not_covered_when_react_loop_added_then_refused() {
    let result = check_partition(&names(&[]), &names(&["echo"]));
    assert!(matches!(result.err(), Some(GraphError::ToolNotCovered { .. })));
}

#[test]
fn react_tests_given_tool_covered_twice_when_react_loop_added_then_refused() {
    let result = check_partition(&names(&["echo", "echo"]), &names(&["echo"]));
    assert!(matches!(result.err(), Some(GraphError::ToolCoveredTwice { .. })));
}

#[test]
fn react_tests_given_tool_node_tool_not_declared_when_react_loop_added_then_refused() {
    let result = check_partition(&names(&["echo", "tally"]), &names(&["echo"]));
    assert!(matches!(result.err(), Some(GraphError::ToolNotDeclared { .. })));
}

#[test]
fn given_partitioned_tools_when_checked_then_ok_and_first_failure_named() {
    assert!(check_partition(&names(&["echo", "tally"]), &names(&["tally", "echo"])).is_ok());
    match check_partition(&names(&["echo"]), &names(&["echo", "tally", "ghost"])) {
        Err(GraphError::ToolNotCovered { name }) => assert_eq!(name, "tally"),
        other => panic!("expected a tool not covered, got {other:?}"),
    }
}

#[test]
fn given_multiple_system_sources_when_built_then_joined_by_blank_line() {
    let sources = vec![
        Source::Config(key("base")),
        Source::State(key("notes")),
        Source::Config(key("rules")),
        Source::State(key("focus")),
    ];
    let system = build_system(&sources, &state(), &config()).unwrap();
    assert_eq!(
        system.as_deref(),
        Some("You are helpful.\n\nnote one\n\nnote two\n\nstay on task")
    );
}

#[test]
fn given_no_system_part_when_built_then_no_prompt() {
    let sources = vec![Source::Config(key("rules"))];
    assert_eq!(build_system(&sources, &state(), &config()).unwrap(), None);
    assert_eq!(build_system(&Vec::new(), &state(), &config()).unwrap(), None);
}

#[test]
fn given_system_source_of_other_kind_when_built_then_mismatch() {
    let sources = vec![Source::Config(key("base")), Source::State(key("count"))];
    match build_system(&sources, &state(), &config()) {
        Err(GraphError::KindMismatch {
            key,
            expected,
            found,
        }) => {
            assert_eq!(key.as_str(), "count");
            assert_eq!(expected, Kind::Str);
            assert_eq!(found, "int");
        }
        other => panic!("expected a kind mismatch, got {other:?}"),
    }
    let missing = vec![Source::State(key("base"))];
    assert!(matches!(
        build_system(&missing, &state(), &config()),
        Err(GraphError::MissingKey { .. })
    ));
    assert_eq!(source_key(&Source::State(key("focus"))).as_str(), "focus");
}

#[test]
fn given_enabled_filter_when_declared_then_only_enabled_tools() {
    let tools = names(&["echo", "tally", "search"]);
    let all = declared_tools(&tools, None, &state()).unwrap();
    assert_eq!(all, vec![0, 1, 2]);
    let enabled = key("enabled");
    let some = declared_tools(&tools, Some(&enabled), &state()).unwrap();
    assert_eq!(some, vec![1]);
    let wrong = key("count");
    assert!(matches!(
        declared_tools(&tools, Some(&wrong), &state()),
        Err(GraphError::KindMismatch { .. })
    ));
}

#[test]
fn given_mixed_calls_when_pending_unsafe_then_only_unsafe_returned() {
    let calls = names(&["read", "write", "ghost", "write"]);
    let registry = names(&["read", "write", "write"]);
    let safe = vec![true, false, true];
    assert_eq!(unsafe_calls(&calls, &registry, &safe), vec![1, 3]);
}

#[test]
fn given_pending_ids_when_selected_then_calls_in_order() {
    let calls = names(&["c1", "c2", "c3"]);
    let pending = names(&["c3", "c1"]);
    assert_eq!(pending_positions(&calls, &pending), vec![0, 2]);
}

#[test]
fn given_calls_when_tool_node_takes_them_then_last_owned_tool_runs_each() {
    let calls = names(&["echo", "ghost", "tally"]);
    let tools = names(&["tally", "echo", "echo"]);
    assert_eq!(owned_calls(&calls, &tools), vec![(0, 2), (2, 0)]);
}

#[test]
fn given_entries_when_last_turn_searched_then_last_by_author() {
    assert_eq!(last_turn_position(&vec![true, false, true, false]), Some(2));
    assert_eq!(last_turn_position(&vec![false, false]), None);
    assert_eq!(last_turn_position(&Vec::new()), None);
}

#[test]
fn given_turn_state_when_llm_edge_taken_then_tools_or_after() {
    let tool_nodes = vec![NodeId::new("t1").unwrap(), NodeId::new("t2").unwrap()];
    let held = names(&["echo", "tally"]);
    let after = Target::End(EndLabel::new("done").unwrap());
    assert_eq!(
        llm_edge_targets(&tool_nodes, &held, &after, None).unwrap(),
        vec![after.clone()]
    );
    let pending = names(&["tally"]);
    assert_eq!(
        llm_edge_targets(&tool_nodes, &held, &after, Some(&pending)).unwrap(),
        vec![
            Target::Node(NodeId::new("t1").unwrap()),
            Target::Node(NodeId::new("t2").unwrap())
        ]
    );
}

#[test]
fn given_model_calls_unowned_tool_when_llm_edge_taken_then_pending_unsatisfiable() {
    let tool_nodes = vec![NodeId::new("tools").unwrap()];
    let held = names(&["echo"]);
    let after = Target::End(EndLabel::new("done").unwrap());
    let pending = names(&["echo", "ghost"]);
    match llm_edge_targets(&tool_nodes, &held, &after, Some(&pending)) {
        Err(GraphError::PendingToolUnsatisfiable { name }) => assert_eq!(name, "ghost"),
        other => panic!("expected an unsatisfiable call, got {other:?}"),
    }
}

#[test]
fn given_call_outcomes_when_gathered_then_result_before_its_updates() {
    let outcomes: Vec<Result<(&str, Vec<&str>), &str>> = vec![
        Ok(("result a", vec!["update a1", "update a2"])),
        Err("error b"),
        Ok(("result c", Vec::new())),
    ];
    assert_eq!(
        gather_call_updates(outcomes),
        vec!["result a", "update a1", "update a2", "error b", "result c"]
    );
}
