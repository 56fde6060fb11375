use vecgraph::search::{
    fetch_count, filter_excluded_hits, finish_search, hit_from_key, hit_node_id, is_excluded, is_rerank_entry, rerank_scan, score_bits_from_key,
    score_key_from_bits, sort_hits_by_score, stored_vector_has_dimension, take_best,
    UNBOUNDED_SCORE_KEY,
};
use vecgraph::{NodeId, ScoredHit, SearchKind, StorageKey, TopK};

fn hit(id: &str, key: u32) -> ScoredHit {
    ScoredHit { node_id_bytes: id.as_bytes().to_vec(), kind: "k".to_string(), hit_kind: SearchKind::Node, score_key: key }
}

fn ids(hits: &[ScoredHit]) -> Vec<String> {
    hits.iter().map(|h| String::from_utf8(h.node_id_bytes.clone()).unwrap()).collect()
}

#[test]
fn score_keys_order_floats() {
    let values = [-3.5f32, -1.0, -0.0, 0.0, 0.25, 1.0, 2.0, f32::MAX];
    for w in values.windows(2) {
        let a = score_key_from_bits(w[0].to_bits());
        let b = score_key_from_bits(w[1].to_bits());
        assert!(a <= b, "{} {}", w[0], w[1]);
    }
    for v in values {
        assert_eq!(score_bits_from_key(score_key_from_bits(v.to_bits())), v.to_bits());
    }
    assert_eq!(score_key_from_bits(f32::MAX.to_bits()), UNBOUNDED_SCORE_KEY);
    assert_eq!(score_key_from_bits(0.0f32.to_bits()), 0x8000_0000);
}

#[test]
fn top_k_keeps_the_best() {
    let mut top = TopK::new(3);
    for (id, key) in [("a", 50u32), ("b", 10), ("c", 40), ("d", 30), ("e", 60), ("f", 20)] {
        top.offer(hit(id, key));
    }
    assert_eq!(top.len(), 3);
    let kept = top.into_sorted_vec();
    assert_eq!(ids(&kept), vec!["b", "f", "d"]);
    assert_eq!(kept.iter().map(|h| h.score_key).collect::<Vec<_>>(), vec![10, 20, 30]);
}

#[test]
fn top_k_rejects_ties_with_the_worst_when_full() {
    let mut top = TopK::new(2);
    top.offer(hit("a", 10));
    top.offer(hit("b", 20));
    top.offer(hit("c", 20));
    assert_eq!(ids(&top.into_sorted_vec()), vec!["a", "b"]);
}

#[test]
fn top_k_takes_everything_below_capacity() {
    let mut top = TopK::new(10);
    top.offer(hit("a", 5));
    top.offer(hit("b", UNBOUNDED_SCORE_KEY + 1));
    top.offer(hit("c", 1));
    assert_eq!(ids(&top.into_sorted_vec()), vec!["c", "a", "b"]);
}

#[test]
fn top_k_of_zero_takes_improving_hits() {
    let mut top = TopK::new(0);
    top.offer(hit("a", 5));
    top.offer(hit("b", 9));
    top.offer(hit("c", 1));
    assert_eq!(ids(&top.into_sorted_vec()), vec!["c", "a"]);
}

#[test]
fn sort_is_stable() {
    let sorted = sort_hits_by_score(vec![hit("a", 3), hit("b", 1), hit("c", 3), hit("d", 2), hit("e", 1)]);
    assert_eq!(ids(&sorted), vec!["b", "e", "d", "a", "c"]);
    assert!(sort_hits_by_score(Vec::new()).is_empty());
}

#[test]
fn fetch_counts() {
    assert_eq!(fetch_count(4, true, true), 20);
    assert_eq!(fetch_count(4, false, true), 12);
    assert_eq!(fetch_count(4, false, false), 4);
    assert_eq!(fetch_count(0, true, false), 0);
}

#[test]
fn exclusion_ignores_ascii_case() {
    let names = vec!["Alice".to_string(), "BOB".to_string()];
    assert!(is_excluded("alice", &names));
    assert!(is_excluded("Bob", &names));
    assert!(!is_excluded("Carol", &names));
    assert!(!is_excluded("alic", &names));
    assert!(!is_excluded("alice", &Vec::new()));
    assert!(is_excluded("ÉCOLE", &vec!["École".to_string()]) == "ÉCOLE".eq_ignore_ascii_case("École"));
    assert!(is_excluded("straße", &vec!["STRAßE".to_string()]));
}

#[test]
fn hits_from_scanned_keys() {
    let h = hit_from_key(b"vec:person:_:alice", "person", SearchKind::Node, 42);
    assert_eq!(h.node_id_bytes, b"alice".to_vec());
    assert_eq!(h.kind, "person");
    assert_eq!(h.hit_kind, SearchKind::Node);
    assert_eq!(h.score_key, 42);
    assert_eq!(hit_node_id(&h).as_str(), "alice");
    let h = hit_from_key(b"broken", "person", SearchKind::Edge, 1);
    assert!(h.node_id_bytes.is_empty());
    let h = hit_from_key(&[b'v', b':', b'k', b':', b'n', b':', 0xff, b'x'], "k", SearchKind::Edge, 1);
    assert_eq!(hit_node_id(&h).as_str(), "\u{fffd}x");
}

#[test]
fn rerank_scan_covers_every_namespace() {
    let scan = rerank_scan("bio");
    assert_eq!(scan.scan_prefix(), "vec:bio:");
    assert_eq!(scan.partitions(), vec!["edge_vectors".to_string(), "node_vectors".to_string()]);
    let h = hit("alice", 0);
    for ns in [None, Some("team".to_string())] {
        let key = StorageKey::NodeVector { kind: "bio".into(), namespace: ns.clone(), node_id: NodeId::new("alice".into()) }.key();
        assert!(key.starts_with(&scan.scan_prefix()));
        assert!(is_rerank_entry(key.as_bytes(), &h));
        let edge_key = StorageKey::EdgeVector {
            edge_kind: "bio".into(),
            namespace: ns,
            source_node_id: NodeId::new("alice".into()),
            target_node_id: NodeId::new("x".into()),
        }
        .key();
        assert!(is_rerank_entry(edge_key.as_bytes(), &h));
    }
    let other = StorageKey::NodeVector { kind: "bio".into(), namespace: None, node_id: NodeId::new("bob".into()) }.key();
    assert!(!is_rerank_entry(other.as_bytes(), &h));
    assert!(!is_rerank_entry(b"vec:bio", &h));
}

#[test]
fn stored_vector_dimensions() {
    assert!(stored_vector_has_dimension(16, 4));
    assert!(!stored_vector_has_dimension(15, 3));
    assert!(!stored_vector_has_dimension(16, 3));
    assert!(stored_vector_has_dimension(0, 0));
}

#[test]
fn take_best_truncates() {
    let hits = vec![hit("a", 1), hit("b", 2), hit("c", 3)];
    assert_eq!(ids(&take_best(hits, 2)), vec!["a", "b"]);
    let hits = vec![hit("a", 1)];
    assert_eq!(ids(&take_best(hits, 5)), vec!["a"]);
}

#[test]
fn hits_compare_by_score_alone() {
    assert!(hit("a", 5) == hit("b", 5));
    assert!(hit("a", 4) < hit("a", 5));
    assert_eq!(hit("a", 6).partial_cmp(&hit("b", 5)), Some(std::cmp::Ordering::Greater));
}

#[test]
fn excluded_hits_leave_in_order() {
    let hits = vec![hit("a", 1), hit("b", 2), hit("c", 3), hit("d", 4)];
    let names = vec![Some("Alice".to_string()), None, Some("carol".to_string()), Some("Dan".to_string())];
    let kept = filter_excluded_hits(hits, &names, &vec!["ALICE".to_string(), "Carol".to_string()]);
    assert_eq!(ids(&kept), vec!["b", "d"]);
}

#[test]
fn search_kind_names() {
    assert_eq!(SearchKind::from("node"), SearchKind::Node);
    assert_eq!(SearchKind::from("edge"), SearchKind::Edge);
    assert_eq!(SearchKind::from("anything"), SearchKind::All);
    assert_eq!(SearchKind::Node.as_str(), "node");
    assert_eq!(SearchKind::All.as_str(), "all");
}

#[test]
fn finished_searches_are_best_first() {
    let hits = vec![hit("a", 1), hit("b", 2), hit("c", 3)];
    assert_eq!(ids(&finish_search(hits, false, 2)), vec!["a", "b"]);
    let reranked = vec![hit("a", 9), hit("b", 2), hit("c", 5), hit("d", 2)];
    assert_eq!(ids(&finish_search(reranked, true, 3)), vec!["b", "d", "c"]);
    assert!(finish_search(vec![hit("a", 1)], true, 0).is_empty());
}
