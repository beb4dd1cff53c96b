use br_llm_graph::{
    Always, EndLabel, GraphBuilder, GraphError, Key, Kind, MapNode, NodeId, Schema, Target,
};

/// The node payload of these tests: a name for what the node does.
type Work = &'static str;

fn nid(name: &str) -> NodeId {
    NodeId::new(name).unwrap()
}

fn noop() -> Work {
    "noop"
}

fn done_edge() -> Always {
    Always(Target::End(EndLabel::new("done").unwrap()))
}

fn schema() -> Schema {
    Schema::builder()
        .state(Key::new("items").unwrap(), Kind::list(Kind::Str))
        .state(Key::new("item").unwrap(), Kind::Str)
        .state(Key::new("out").unwrap(), Kind::Str)
        .state(Key::new("outs").unwrap(), Kind::list(Kind::Str))
        .build()
}

fn builder() -> GraphBuilder<Work, Always> {
    GraphBuilder::new(schema())
}

#[test]
fn given_valid_single_node_when_build_then_ok() {
    let graph = builder()
        .entry(nid("a"))
        .node(nid("a"), noop())
        .edge(nid("a"), done_edge())
        .build();
    assert!(graph.is_ok());
}

#[test]
fn given_duplicate_id_when_build_then_refused() {
    let result = builder()
        .entry(nid("a"))
        .node(nid("a"), noop())
        .node(nid("a"), noop())
        .edge(nid("a"), done_edge())
        .build();
    assert!(matches!(result, Err(GraphError::DuplicateNode { .. })));
}

#[test]
fn given_unknown_entry_when_build_then_refused() {
    let result = builder()
        .entry(nid("missing"))
        .node(nid("a"), noop())
        .edge(nid("a"), done_edge())
        .build();
    assert!(matches!(result, Err(GraphError::UnknownEntry { .. })));
}

#[test]
fn given_missing_entry_when_build_then_refused() {
    let result = builder()
        .node(nid("a"), noop())
        .edge(nid("a"), done_edge())
        .build();
    assert!(matches!(result, Err(GraphError::MissingEntry)));
}

#[test]
fn given_node_without_edge_when_build_then_refused() {
    let result = builder().entry(nid("a")).node(nid("a"), noop()).build();
    assert!(matches!(result, Err(GraphError::NodeWithoutEdge { .. })));
}

#[test]
fn given_edge_from_unknown_node_when_build_then_refused() {
    let result = builder()
        .entry(nid("a"))
        .node(nid("a"), noop())
        .edge(nid("a"), done_edge())
        .edge(nid("ghost"), done_edge())
        .build();
    assert!(matches!(
        result,
        Err(GraphError::EdgeFromUnknownNode { .. })
    ));
}

#[test]
fn given_map_with_bad_keys_when_build_then_refused() {
    let map = MapNode {
        list: Key::new("out").unwrap(),
        item: Key::new("item").unwrap(),
        body: noop(),
        output: Key::new("out").unwrap(),
        results: Key::new("outs").unwrap(),
    };
    let result = builder()
        .entry(nid("m"))
        .map(nid("m"), map)
        .edge(nid("m"), done_edge())
        .build();
    assert!(matches!(result, Err(GraphError::MapKeyMismatch { .. })));
}

#[test]
fn given_map_with_good_keys_when_build_then_ok() {
    let map = MapNode {
        list: Key::new("items").unwrap(),
        item: Key::new("item").unwrap(),
        body: noop(),
        output: Key::new("out").unwrap(),
        results: Key::new("outs").unwrap(),
    };
    let result = builder()
        .entry(nid("m"))
        .map(nid("m"), map)
        .edge(nid("m"), done_edge())
        .build();
    assert!(result.is_ok());
}

#[test]
fn given_built_graph_when_queried_then_order_entry_and_joins_kept() {
    let graph = builder()
        .entry(nid("b"))
        .node(nid("b"), noop())
        .join(nid("a"), noop())
        .edge(nid("a"), done_edge())
        .edge(nid("b"), Always(Target::Node(nid("a"))))
        .build()
        .unwrap();
    let order = graph.order();
    let order: Vec<&str> = order.iter().map(|id| id.as_str()).collect();
    assert_eq!(order, vec!["b", "a"]);
    assert_eq!(graph.entry().as_str(), "b");
    assert!(graph.is_join(&nid("a")));
    assert!(!graph.is_join(&nid("b")));
    assert!(!graph.is_join(&nid("ghost")));
    assert!(graph.contains(&nid("a")));
    assert!(!graph.contains(&nid("ghost")));
    assert!(graph.node(&nid("b")).is_some());
    assert!(graph.edge(&nid("b")).is_some());
    assert!(graph.edge(&nid("ghost")).is_none());
}

#[test]
fn given_two_edges_from_one_node_when_build_then_last_edge_counts() {
    let graph = builder()
        .entry(nid("a"))
        .node(nid("a"), noop())
        .edge(nid("a"), Always(Target::End(EndLabel::new("first").unwrap())))
        .edge(nid("a"), Always(Target::End(EndLabel::new("second").unwrap())))
        .build()
        .unwrap();
    let edge = graph.edge(&nid("a")).unwrap();
    assert_eq!(
        edge.targets(),
        vec![Target::End(EndLabel::new("second").unwrap())]
    );
}

#[test]
fn given_map_with_undeclared_item_key_when_build_then_refused() {
    let map = MapNode {
        list: Key::new("items").unwrap(),
        item: Key::new("stray").unwrap(),
        body: noop(),
        output: Key::new("out").unwrap(),
        results: Key::new("outs").unwrap(),
    };
    let result = builder()
        .entry(nid("m"))
        .map(nid("m"), map)
        .edge(nid("m"), done_edge())
        .build();
    assert!(matches!(result, Err(GraphError::MapKeyMismatch { .. })));
}
