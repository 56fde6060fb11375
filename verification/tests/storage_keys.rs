use vecgraph::{EdgeId, NodeId, SearchKind, StorageKey, VectorScanQuery};

fn nid(s: &str) -> NodeId {
    NodeId::new(s.to_string())
}

fn eid(s: &str) -> EdgeId {
    EdgeId::new(s.to_string())
}

#[test]
fn partitions_of_each_entry() {
    assert_eq!(StorageKey::Node(nid("a")).partition(), "nodes");
    assert_eq!(
        StorageKey::NodeVector { kind: "k".into(), namespace: None, node_id: nid("a") }.partition(),
        "node_vectors"
    );
    assert_eq!(StorageKey::Edge(eid("e")).partition(), "edges");
    assert_eq!(
        StorageKey::EdgeVector {
            edge_kind: "k".into(),
            namespace: None,
            source_node_id: nid("a"),
            target_node_id: nid("b"),
        }
        .partition(),
        "edge_vectors"
    );
    assert_eq!(StorageKey::EdgesForNode { node_id: nid("a"), edge_id: eid("e") }.partition(), "edges_for_node");
    assert_eq!(
        StorageKey::EdgesTargetingNode { node_id: nid("a"), edge_id: eid("e") }.partition(),
        "edges_targeting_node"
    );
    assert_eq!(StorageKey::NameMapping { kind: "k".into(), name: "n".into() }.partition(), "names");
}

#[test]
fn keys_of_each_entry() {
    assert_eq!(StorageKey::Node(nid("alice")).key(), "node:alice");
    assert_eq!(
        StorageKey::NodeVector { kind: "person".into(), namespace: None, node_id: nid("alice") }.key(),
        "vec:person:_:alice"
    );
    assert_eq!(
        StorageKey::NodeVector { kind: "person".into(), namespace: Some("team".into()), node_id: nid("alice") }.key(),
        "vec:person:team:alice"
    );
    assert_eq!(StorageKey::Edge(eid("alice:knows")).key(), "edge:alice:knows");
    assert_eq!(
        StorageKey::EdgeVector {
            edge_kind: "knows".into(),
            namespace: None,
            source_node_id: nid("alice"),
            target_node_id: nid("bob"),
        }
        .key(),
        "vec:knows:_:alice:bob"
    );
    assert_eq!(
        StorageKey::EdgesForNode { node_id: nid("alice"), edge_id: eid("alice:knows") }.key(),
        "efn:alice:alice:knows"
    );
    assert_eq!(
        StorageKey::EdgesTargetingNode { node_id: nid("bob"), edge_id: eid("alice:knows") }.key(),
        "etn:bob:alice:knows"
    );
    assert_eq!(StorageKey::NameMapping { kind: "person".into(), name: "Alice".into() }.key(), "name:person:Alice");
}

#[test]
fn index_prefixes() {
    let (p, prefix) = StorageKey::edges_for_node_prefix(&nid("alice"));
    assert_eq!(p, "edges_for_node");
    assert_eq!(prefix, "efn:alice:");
    let key = StorageKey::EdgesForNode { node_id: nid("alice"), edge_id: eid("alice:knows") }.key();
    assert!(key.starts_with(&prefix));
    let other = StorageKey::EdgesForNode { node_id: nid("alicia"), edge_id: eid("x") }.key();
    assert!(!other.starts_with(&prefix));
    let (p, prefix) = StorageKey::edges_targeting_node_prefix(&nid("bob"));
    assert_eq!(p, "edges_targeting_node");
    assert_eq!(prefix, "etn:bob:");
}

#[test]
fn scan_query_partitions() {
    let q = VectorScanQuery::new("person".to_string(), SearchKind::Edge);
    assert_eq!(q.partitions(), vec!["edge_vectors".to_string()]);
    let q = VectorScanQuery::new("person".to_string(), SearchKind::Node);
    assert_eq!(q.partitions(), vec!["node_vectors".to_string()]);
    let q = VectorScanQuery::new("person".to_string(), SearchKind::All);
    assert_eq!(q.partitions(), vec!["edge_vectors".to_string(), "node_vectors".to_string()]);
    for p in q.partitions() {
        assert!(VectorScanQuery::search_kind_from_partition(&p).is_some());
    }
}

#[test]
fn scan_prefix_with_and_without_namespace() {
    let q = VectorScanQuery::new("person".to_string(), SearchKind::Node);
    assert!(q.namespace.is_none());
    assert_eq!(q.scan_prefix(), "vec:person:");
    let q = q.with_namespace("team".to_string());
    assert_eq!(q.scan_prefix(), "vec:person:team:");
    let key = StorageKey::NodeVector { kind: "person".into(), namespace: Some("team".into()), node_id: nid("alice") }.key();
    assert!(key.starts_with(&q.scan_prefix()));
}

#[test]
fn search_kind_of_partitions() {
    assert_eq!(VectorScanQuery::search_kind_from_partition("node_vectors"), Some(SearchKind::Node));
    assert_eq!(VectorScanQuery::search_kind_from_partition("edge_vectors"), Some(SearchKind::Edge));
    assert_eq!(VectorScanQuery::search_kind_from_partition("nodes"), None);
    assert_eq!(VectorScanQuery::search_kind_from_partition(""), None);
}

#[test]
fn node_id_from_vector_keys() {
    assert_eq!(VectorScanQuery::node_id_from_key("vec:person:_:alice"), Some("alice"));
    assert_eq!(VectorScanQuery::node_id_from_key("vec:knows:team:alice:bob"), Some("alice"));
    assert_eq!(VectorScanQuery::node_id_from_key("vec:knows:team:alice:bob:extra"), Some("alice"));
    assert_eq!(VectorScanQuery::node_id_from_key("vec:person:_:"), Some(""));
    assert_eq!(VectorScanQuery::node_id_from_key("vec:person:_"), None);
    assert_eq!(VectorScanQuery::node_id_from_key("vec"), None);
    assert_eq!(VectorScanQuery::node_id_from_key(""), None);
    assert_eq!(VectorScanQuery::node_id_from_key("vec:é:ñ:ü"), Some("ü"));
}

#[test]
fn node_id_from_key_inverts_the_vector_key() {
    let key = StorageKey::NodeVector { kind: "person".into(), namespace: None, node_id: nid("bob") }.key();
    assert_eq!(VectorScanQuery::node_id_from_key(&key), Some("bob"));
    let key = StorageKey::EdgeVector {
        edge_kind: "knows".into(),
        namespace: Some("ns".into()),
        source_node_id: nid("src"),
        target_node_id: nid("dst"),
    }
    .key();
    assert_eq!(VectorScanQuery::node_id_from_key(&key), Some("src"));
}

#[test]
fn distinct_entries_have_distinct_keys() {
    let a = StorageKey::NodeVector { kind: "k".into(), namespace: Some("n".into()), node_id: nid("x") }.key();
    let b = StorageKey::NodeVector { kind: "k".into(), namespace: Some("m".into()), node_id: nid("x") }.key();
    assert_ne!(a, b);
    let a = StorageKey::NameMapping { kind: "person".into(), name: "a:b".into() }.key();
    let b = StorageKey::NameMapping { kind: "person".into(), name: "a".into() }.key();
    assert_ne!(a, b);
    let a = StorageKey::EdgesForNode { node_id: nid("a"), edge_id: eid("b:c") }.key();
    let b = StorageKey::EdgesForNode { node_id: nid("a"), edge_id: eid("b:d") }.key();
    assert_ne!(a, b);
}

#[test]
fn scan_prefix_selects_kind_and_namespace() {
    let q = VectorScanQuery::new("person".to_string(), SearchKind::Node).with_namespace("team".to_string());
    let inside = StorageKey::NodeVector { kind: "person".into(), namespace: Some("team".into()), node_id: nid("a") }.key();
    let other_ns = StorageKey::NodeVector { kind: "person".into(), namespace: Some("teams".into()), node_id: nid("a") }.key();
    let other_kind = StorageKey::NodeVector { kind: "persons".into(), namespace: Some("team".into()), node_id: nid("a") }.key();
    assert!(inside.starts_with(&q.scan_prefix()));
    assert!(!other_ns.starts_with(&q.scan_prefix()));
    assert!(!other_kind.starts_with(&q.scan_prefix()));
}
