use std::collections::HashMap;
use vecgraph::plan::{
    collect_found_edges, failure_is_fatal, delete_edge_ops, delete_name_mapping_ops, delete_node_ops, edge_vector_read_key, insert_edge_ops,
    insert_edge_with_vector_ops, insert_node_ops, insert_node_with_vector_ops, node_vector_read_key,
    set_name_mapping_ops,
};
use vecgraph::{Edge, EdgeId, KvOp, Node, NodeId, StorageKey};

type Store = HashMap<(String, String), Vec<u8>>;

fn run(store: &mut Store, ops: Vec<KvOp>) {
    for op in ops {
        match op {
            KvOp::Put { partition, key, value } => {
                store.insert((partition.to_string(), key), value);
            }
            KvOp::Remove { partition, key, .. } => {
                store.remove(&(partition.to_string(), key));
            }
        }
    }
}

fn get<'a>(store: &'a Store, key: &StorageKey) -> Option<&'a Vec<u8>> {
    store.get(&(key.partition().to_string(), key.key()))
}

fn alice() -> Node {
    Node::new(NodeId::new("alice".into()), "person".into(), "Alice".into(), serde_json::Value::Null)
        .with_namespace("team".into())
}

fn knows() -> Edge {
    Edge::new(NodeId::new("alice".into()), NodeId::new("bob".into()), "knows".into(), "c".into())
}

#[test]
fn stored_node_reads_back() {
    let mut store = Store::new();
    let node = alice();
    run(&mut store, insert_node_ops(&node, b"{node}".to_vec()));
    assert_eq!(get(&store, &StorageKey::Node(node.id.clone())), Some(&b"{node}".to_vec()));
    assert_eq!(store.len(), 1);
}

#[test]
fn stored_node_vector_reads_back() {
    let mut store = Store::new();
    let node = alice();
    let ops = insert_node_with_vector_ops(&node, b"{node}".to_vec(), vec![1, 2, 3, 4]);
    assert_eq!(ops.len(), 2);
    run(&mut store, ops);
    let key = node_vector_read_key(&node, &node.id);
    assert_eq!(key.key(), "vec:person:team:alice");
    assert_eq!(get(&store, &key), Some(&vec![1, 2, 3, 4]));
}

#[test]
fn stored_edge_is_indexed_both_ways() {
    let mut store = Store::new();
    let edge = knows();
    run(&mut store, insert_edge_ops(&edge, b"{edge}".to_vec()));
    assert_eq!(get(&store, &StorageKey::Edge(edge.id.clone())), Some(&b"{edge}".to_vec()));
    let (_, prefix) = StorageKey::edges_for_node_prefix(&edge.source_node_id);
    let forward: Vec<_> = store
        .iter()
        .filter(|((p, k), _)| p == "edges_for_node" && k.starts_with(&prefix))
        .map(|(_, v)| String::from_utf8(v.clone()).unwrap())
        .collect();
    assert_eq!(forward, vec!["alice:knows:bob".to_string()]);
    let (_, prefix) = StorageKey::edges_targeting_node_prefix(&edge.target_node_id);
    let reverse: Vec<_> = store
        .iter()
        .filter(|((p, k), _)| p == "edges_targeting_node" && k.starts_with(&prefix))
        .map(|(_, v)| String::from_utf8(v.clone()).unwrap())
        .collect();
    assert_eq!(reverse, vec!["alice:knows:bob".to_string()]);
}

#[test]
fn delete_edge_undoes_insert_with_vector() {
    let mut store = Store::new();
    run(&mut store, insert_node_ops(&alice(), b"{node}".to_vec()));
    let before = store.clone();
    let edge = knows();
    run(&mut store, insert_edge_with_vector_ops(&edge, b"{edge}".to_vec(), Some("team".into()), vec![9; 8]));
    assert_eq!(store.len(), 5);
    assert_eq!(get(&store, &edge_vector_read_key(&edge, Some("team".into()))), Some(&vec![9; 8]));
    let ops = delete_edge_ops(&edge.id, Some(&edge), Some("team".into()));
    assert!(matches!(ops[0], KvOp::Remove { required: true, .. }));
    assert!(ops[1..].iter().all(|op| matches!(op, KvOp::Remove { required: false, .. })));
    run(&mut store, ops);
    assert_eq!(store, before);
    let again = delete_edge_ops(&edge.id, None, Some("team".into()));
    assert!(again.is_empty());
}

#[test]
fn name_mapping_set_get_delete() {
    let mut store = Store::new();
    run(&mut store, set_name_mapping_ops("person", "Alice", b"\"alice\"".to_vec()));
    let key = StorageKey::NameMapping { kind: "person".into(), name: "Alice".into() };
    assert_eq!(get(&store, &key), Some(&b"\"alice\"".to_vec()));
    run(&mut store, delete_name_mapping_ops("person", "Alice"));
    assert_eq!(get(&store, &key), None);
    assert!(store.is_empty());
}

#[test]
fn delete_node_cascades_edges_both_ways() {
    let mut store = Store::new();
    let bob = Node::new(NodeId::new("bob".into()), "person".into(), "Bob".into(), serde_json::Value::Null);
    run(&mut store, insert_node_with_vector_ops(&bob, b"n".to_vec(), vec![0; 4]));
    let into = knows();
    let out = Edge::new(NodeId::new("bob".into()), NodeId::new("carol".into()), "knows".into(), "x".into());
    let unrelated = Edge::new(NodeId::new("alice".into()), NodeId::new("carol".into()), "knows".into(), "y".into());
    run(&mut store, insert_edge_with_vector_ops(&into, b"e1".to_vec(), None, vec![1; 4]));
    run(&mut store, insert_edge_ops(&out, b"e2".to_vec()));
    run(&mut store, insert_edge_ops(&unrelated, b"e3".to_vec()));
    let listed = vec![(out.clone(), None), (into.clone(), None)];
    run(&mut store, delete_node_ops(&bob.id, Some(&bob), &listed));
    assert_eq!(get(&store, &StorageKey::Node(bob.id.clone())), None);
    assert_eq!(get(&store, &node_vector_read_key(&bob, &bob.id)), None);
    assert_eq!(get(&store, &StorageKey::Edge(into.id.clone())), None);
    assert_eq!(get(&store, &StorageKey::Edge(out.id.clone())), None);
    assert_eq!(get(&store, &edge_vector_read_key(&into, None)), None);
    assert_eq!(get(&store, &StorageKey::Edge(unrelated.id.clone())), Some(&b"e3".to_vec()));
    assert_eq!(store.len(), 3);
    let ops = delete_node_ops(&bob.id, None, &Vec::new());
    assert_eq!(ops.len(), 1);
    let _ = EdgeId::new("unused".into());
}

#[test]
fn edges_of_one_kind_to_two_targets_are_both_indexed() {
    let mut store = Store::new();
    let a = Edge::new(NodeId::new("hub".into()), NodeId::new("alice".into()), "member".into(), "a".into());
    let b = Edge::new(NodeId::new("hub".into()), NodeId::new("bob".into()), "member".into(), "b".into());
    run(&mut store, insert_edge_ops(&a, b"A".to_vec()));
    run(&mut store, insert_edge_ops(&b, b"B".to_vec()));
    assert_eq!(get(&store, &StorageKey::Edge(a.id.clone())), Some(&b"A".to_vec()));
    assert_eq!(get(&store, &StorageKey::Edge(b.id.clone())), Some(&b"B".to_vec()));
    let (_, prefix) = StorageKey::edges_targeting_node_prefix(&NodeId::new("alice".into()));
    let into_alice: Vec<_> = store
        .iter()
        .filter(|((p, k), _)| p == "edges_targeting_node" && k.starts_with(&prefix))
        .map(|(_, v)| String::from_utf8(v.clone()).unwrap())
        .collect();
    assert_eq!(into_alice, vec!["hub:member:alice".to_string()]);
}

#[test]
fn index_values_name_edges() {
    assert_eq!(vecgraph::plan::indexed_edge_id(b"alice:knows").as_str(), "alice:knows");
    assert_eq!(vecgraph::plan::indexed_edge_id(&[0x61, 0xff]).as_str(), "a\u{fffd}");
}

#[test]
fn failures_that_end_an_operation() {
    let edge = knows();
    let ops = insert_edge_ops(&edge, b"e".to_vec());
    assert!(ops.iter().all(failure_is_fatal));
    let ops = delete_edge_ops(&edge.id, Some(&edge), None);
    let fatal: Vec<bool> = ops.iter().map(failure_is_fatal).collect();
    assert_eq!(fatal, vec![true, false, false, false]);
}

#[test]
fn found_edges_skip_dangling_entries() {
    let a = knows();
    let b = Edge::new(NodeId::new("bob".into()), NodeId::new("carol".into()), "knows".into(), "x".into());
    let edges = collect_found_edges(vec![None, Some(a.clone()), None, Some(b.clone())]);
    let ids: Vec<&str> = edges.iter().map(|e| e.id.as_str()).collect();
    assert_eq!(ids, vec!["alice:knows:bob", "bob:knows:carol"]);
    assert!(collect_found_edges(Vec::new()).is_empty());
}

#[test]
fn name_mappings_of_other_names_are_untouched() {
    let mut store = Store::new();
    run(&mut store, set_name_mapping_ops("person", "Alice", b"\"a\"".to_vec()));
    run(&mut store, set_name_mapping_ops("person", "Bob", b"\"b\"".to_vec()));
    run(&mut store, set_name_mapping_ops("team", "Alice", b"\"t\"".to_vec()));
    run(&mut store, delete_name_mapping_ops("person", "Alice"));
    let bob = StorageKey::NameMapping { kind: "person".into(), name: "Bob".into() };
    let team = StorageKey::NameMapping { kind: "team".into(), name: "Alice".into() };
    assert_eq!(get(&store, &bob), Some(&b"\"b\"".to_vec()));
    assert_eq!(get(&store, &team), Some(&b"\"t\"".to_vec()));
    assert_eq!(store.len(), 2);
}
