use br_llm_graph::ident::NameOrder;
use br_llm_graph::{EndLabel, GraphError, Key, KeyMap, NodeId};

#[test]
fn given_identifiers_when_validated_then_only_lowercase_names_accepted() {
    assert!(Key::new("count").is_ok());
    assert!(Key::new("a1_b").is_ok());
    assert!(NodeId::new("n").is_ok());
    assert!(EndLabel::new("done_2").is_ok());
    for bad in ["", "1a", "_a", "Abc", "a-b", "a b", "é"] {
        match Key::new(bad) {
            Err(GraphError::Identifier { field, value }) => {
                assert_eq!(field, "key");
                assert_eq!(value, bad);
            }
            other => panic!("expected {bad:?} to be refused, got {other:?}"),
        }
    }
    assert!(matches!(
        NodeId::new("X"),
        Err(GraphError::Identifier { field: "node id", .. })
    ));
    assert!(matches!(
        EndLabel::new("-"),
        Err(GraphError::Identifier { field: "end label", .. })
    ));
}

#[test]
fn given_keys_when_compared_then_ordered_by_name() {
    let a = Key::new("alpha").unwrap();
    let b = Key::new("beta").unwrap();
    let ab = Key::new("al").unwrap();
    assert!(matches!(a.order(&b), NameOrder::Less));
    assert!(matches!(b.order(&a), NameOrder::Greater));
    assert!(matches!(a.order(&a.clone()), NameOrder::Equal));
    assert!(matches!(ab.order(&a), NameOrder::Less));
    assert!(a.same(&Key::new("alpha").unwrap()));
    assert!(!a.same(&b));
}

#[test]
fn given_keymap_when_inserted_then_sorted_and_replaced() {
    let mut map: KeyMap<i32> = KeyMap::new();
    assert!(map.is_empty());
    assert_eq!(map.insert(Key::new("b").unwrap(), 1), None);
    assert_eq!(map.insert(Key::new("a").unwrap(), 2), None);
    assert_eq!(map.insert(Key::new("b").unwrap(), 3), Some(1));
    assert_eq!(map.len(), 2);
    let keys: Vec<String> = map.keys().iter().map(|k| k.as_str().to_owned()).collect();
    assert_eq!(keys, vec!["a".to_owned(), "b".to_owned()]);
    assert_eq!(map.get(&Key::new("b").unwrap()), Some(&3));
    assert!(map.contains_key(&Key::new("a").unwrap()));
    assert_eq!(map.remove(&Key::new("a").unwrap()), Some(2));
    assert_eq!(map.get(&Key::new("a").unwrap()), None);
    assert_eq!(map.remove(&Key::new("a").unwrap()), None);
}
