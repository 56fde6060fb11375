use vecgraph::{Edge, EdgeId, Node, NodeId, VecGraphError};

#[test]
fn node_id_wraps_text() {
    let id = NodeId::new("alice".to_string());
    assert_eq!(id.as_str(), "alice");
    let same: NodeId = NodeId::from("alice".to_string());
    assert!(id == same);
    assert!(id != NodeId::new("bob".to_string()));
}

#[test]
fn edge_id_from_node_and_kind_joins_with_colon() {
    let id = EdgeId::from_node_and_kind(&NodeId::new("alice".to_string()), "knows");
    assert_eq!(id.as_str(), "alice:knows");
    assert!(id == EdgeId::new("alice:knows".to_string()));
}

#[test]
fn edge_new_takes_id_from_source_and_kind() {
    let edge = Edge::new(
        NodeId::new("alice".to_string()),
        NodeId::new("bob".to_string()),
        "collaborates_with".to_string(),
        "alice works with bob".to_string(),
    );
    assert_eq!(edge.id.as_str(), "alice:collaborates_with:bob");
    assert_eq!(edge.source_node_id.as_str(), "alice");
    assert_eq!(edge.target_node_id.as_str(), "bob");
    assert_eq!(edge.kind, "collaborates_with");
    assert_eq!(edge.content, "alice works with bob");
    assert!(edge.metadata.is_none());
}

#[test]
fn edge_with_suffix_appends_suffix_to_id() {
    let edge = Edge::with_suffix(
        NodeId::new("alice".to_string()),
        NodeId::new("carol".to_string()),
        "mentions".to_string(),
        &format!("{}", 7),
        "text".to_string(),
    );
    assert_eq!(edge.id.as_str(), "alice:mentions:7");
    assert_eq!(edge.target_node_id.as_str(), "carol");
}

#[test]
fn edge_with_metadata_keeps_the_rest() {
    let edge = Edge::new(
        NodeId::new("a".to_string()),
        NodeId::new("b".to_string()),
        "k".to_string(),
        "c".to_string(),
    )
    .with_metadata(serde_json::Value::Bool(true));
    assert_eq!(edge.metadata, Some(serde_json::Value::Bool(true)));
    assert_eq!(edge.id.as_str(), "a:k:b");
}

#[test]
fn node_new_and_namespace() {
    let node = Node::new(
        NodeId::new("alice".to_string()),
        "person".to_string(),
        "Alice".to_string(),
        serde_json::Value::String("engineer".to_string()),
    );
    assert!(node.namespace.is_none());
    assert_eq!(node.kind, "person");
    assert_eq!(node.name, "Alice");
    let placed = node.clone().with_namespace("team".to_string());
    assert_eq!(placed.namespace.as_deref(), Some("team"));
    assert_eq!(placed.payload, node.payload);
    assert!(placed.id == node.id);
}

#[test]
fn error_messages() {
    assert_eq!(
        VecGraphError::DimensionMismatch { expected: 384, got: 0 }.message(),
        "Dimension mismatch: expected 384, got 0"
    );
    assert_eq!(VecGraphError::EmbedderError("x".to_string()).message(), "Embedder error: x");
    assert_eq!(VecGraphError::EmptyQuery.message(), "Query is empty");
    assert_eq!(VecGraphError::StorageError("io".to_string()).message(), "Storage error: io");
    assert_eq!(
        VecGraphError::SerializationError("bad".to_string()).message(),
        "Serialization error: bad"
    );
    assert_eq!(VecGraphError::TokenizerError("t".to_string()).message(), "Tokenizer error: t");
    assert_eq!(VecGraphError::Other("o".to_string()).message(), "Error: o");
}

#[test]
fn decimal_rendering_matches_format() {
    for n in [0usize, 7, 10, 99, 100, 1024, 123456789, usize::MAX] {
        let e = VecGraphError::DimensionMismatch { expected: n, got: n };
        assert_eq!(e.message(), format!("Dimension mismatch: expected {}, got {}", n, n));
    }
}

#[test]
fn edges_to_different_targets_are_different_edges() {
    let a = Edge::new(NodeId::new("hub".into()), NodeId::new("alice".into()), "member".into(), "x".into());
    let b = Edge::new(NodeId::new("hub".into()), NodeId::new("bob".into()), "member".into(), "y".into());
    assert!(a.id != b.id);
    assert_eq!(a.id.as_str(), "hub:member:alice");
}
