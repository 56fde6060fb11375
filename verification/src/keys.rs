//! Where each piece of the graph is stored: the partition and the key of
//! every entry, and the prefixes that scans use.

use vstd::prelude::*;
use crate::ids::{EdgeId, NodeId};
use crate::search::SearchKind;
use crate::text::{find_colon, has_colon, lemma_next_colon_at, lemma_next_colon_bounds, next_colon, str_eq};

verus! {

/// An entry of the store.
pub enum StorageKey {
    Node(NodeId),
    NodeVector { kind: String, namespace: Option<String>, node_id: NodeId },
    Edge(EdgeId),
    EdgeVector {
        edge_kind: String,
        namespace: Option<String>,
        source_node_id: NodeId,
        target_node_id: NodeId,
    },
    EdgesForNode { node_id: NodeId, edge_id: EdgeId },
    EdgesTargetingNode { node_id: NodeId, edge_id: EdgeId },
    NameMapping { kind: String, name: String },
}

/// The namespace as it stands in a vector key: its name, or `_` for none.
pub open spec fn namespace_text(namespace: Option<String>) -> Seq<char> {
    match namespace {
        Some(ns) => ns@,
        None => "_"@,
    }
}

/// The key of a node's vector: `vec:{kind}:{namespace}:{node_id}`.
pub open spec fn node_vector_key_text(kind: Seq<char>, namespace: Seq<char>, node_id: Seq<char>) -> Seq<char> {
    "vec:"@ + kind + ":"@ + namespace + ":"@ + node_id
}

/// The key of an edge's vector: `vec:{kind}:{namespace}:{source}:{target}`.
pub open spec fn edge_vector_key_text(
    kind: Seq<char>,
    namespace: Seq<char>,
    source: Seq<char>,
    target: Seq<char>,
) -> Seq<char> {
    "vec:"@ + kind + ":"@ + namespace + ":"@ + source + ":"@ + target
}

/// The prefix under which the forward index lists the edges leaving a node.
pub open spec fn edges_for_node_prefix_text(node_id: Seq<char>) -> Seq<char> {
    "efn:"@ + node_id + ":"@
}

/// The prefix under which the reverse index lists the edges entering a node.
pub open spec fn edges_targeting_node_prefix_text(node_id: Seq<char>) -> Seq<char> {
    "etn:"@ + node_id + ":"@
}

/// The key of a name's mapping: `name:{kind}:{name}`.
pub open spec fn name_mapping_key_text(kind: Seq<char>, name: Seq<char>) -> Seq<char> {
    "name:"@ + kind + ":"@ + name
}

impl StorageKey {
    /// The partition that holds the entry.
    pub open spec fn partition_text(&self) -> Seq<char> {
        match self {
            StorageKey::Node(_) => "nodes"@,
            StorageKey::NodeVector { .. } => "node_vectors"@,
            StorageKey::Edge(_) => "edges"@,
            StorageKey::EdgeVector { .. } => "edge_vectors"@,
            StorageKey::EdgesForNode { .. } => "edges_for_node"@,
            StorageKey::EdgesTargetingNode { .. } => "edges_targeting_node"@,
            StorageKey::NameMapping { .. } => "names"@,
        }
    }

    /// The key of the entry within its partition.
    pub open spec fn key_text(&self) -> Seq<char> {
        match self {
            StorageKey::Node(id) => "node:"@ + id@,
            StorageKey::NodeVector { kind, namespace, node_id } =>
                node_vector_key_text(kind@, namespace_text(*namespace), node_id@),
            StorageKey::Edge(id) => "edge:"@ + id@,
            StorageKey::EdgeVector { edge_kind, namespace, source_node_id, target_node_id } =>
                edge_vector_key_text(edge_kind@, namespace_text(*namespace), source_node_id@, target_node_id@),
            StorageKey::EdgesForNode { node_id, edge_id } =>
                edges_for_node_prefix_text(node_id@) + edge_id@,
            StorageKey::EdgesTargetingNode { node_id, edge_id } =>
                edges_targeting_node_prefix_text(node_id@) + edge_id@,
            StorageKey::NameMapping { kind, name } => name_mapping_key_text(kind@, name@),
        }
    }

    /// The partition that holds the entry.
    pub fn partition(&self) -> (r: &'static str)
        ensures
            r@ == self.partition_text(),
    {
        match self {
            StorageKey::Node(_) => "nodes",
            StorageKey::NodeVector { .. } => "node_vectors",
            StorageKey::Edge(_) => "edges",
            StorageKey::EdgeVector { .. } => "edge_vectors",
            StorageKey::EdgesForNode { .. } => "edges_for_node",
            StorageKey::EdgesTargetingNode { .. } => "edges_targeting_node",
            StorageKey::NameMapping { .. } => "names",
        }
    }

    /// The key of the entry within its partition.
    pub fn key(&self) -> (r: String)
        ensures
            r@ == self.key_text(),
    {
        match self {
            StorageKey::Node(id) => {
                let mut s = String::from_str("node:");
                s.append(id.as_str());
                s
            },
            StorageKey::NodeVector { kind, namespace, node_id } => {
                let ns: &str = match namespace {
                    Some(n) => n.as_str(),
                    None => "_",
                };
                let mut s = String::from_str("vec:");
                s.append(kind.as_str());
                s.append(":");
                s.append(ns);
                s.append(":");
                s.append(node_id.as_str());
                s
            },
            StorageKey::Edge(id) => {
                let mut s = String::from_str("edge:");
                s.append(id.as_str());
                s
            },
            StorageKey::EdgeVector { edge_kind, namespace, source_node_id, target_node_id } => {
                let ns: &str = match namespace {
                    Some(n) => n.as_str(),
                    None => "_",
                };
                let mut s = String::from_str("vec:");
                s.append(edge_kind.as_str());
                s.append(":");
                s.append(ns);
                s.append(":");
                s.append(source_node_id.as_str());
                s.append(":");
                s.append(target_node_id.as_str());
                s
            },
            StorageKey::EdgesForNode { node_id, edge_id } => {
                let mut s = String::from_str("efn:");
                s.append(node_id.as_str());
                s.append(":");
                s.append(edge_id.as_str());
                s
            },
            StorageKey::EdgesTargetingNode { node_id, edge_id } => {
                let mut s = String::from_str("etn:");
                s.append(node_id.as_str());
                s.append(":");
                s.append(edge_id.as_str());
                s
            },
            StorageKey::NameMapping { kind, name } => {
                let mut s = String::from_str("name:");
                s.append(kind.as_str());
                s.append(":");
                s.append(name.as_str());
                s
            },
        }
    }

    /// The partition and the key prefix under which the edges leaving `node_id` are listed.
    pub fn edges_for_node_prefix(node_id: &NodeId) -> (r: (&'static str, String))
        ensures
            r.0@ == "edges_for_node"@,
            r.1@ == edges_for_node_prefix_text(node_id@),
    {
        let mut s = String::from_str("efn:");
        s.append(node_id.as_str());
        s.append(":");
        ("edges_for_node", s)
    }

    /// The partition and the key prefix under which the edges entering `node_id` are listed.
    pub fn edges_targeting_node_prefix(node_id: &NodeId) -> (r: (&'static str, String))
        ensures
            r.0@ == "edges_targeting_node"@,
            r.1@ == edges_targeting_node_prefix_text(node_id@),
    {
        let mut s = String::from_str("etn:");
        s.append(node_id.as_str());
        s.append(":");
        ("edges_targeting_node", s)
    }
}

/// A scan over the stored vectors of one kind, optionally within one namespace.
pub struct VectorScanQuery {
    pub kind: String,
    pub namespace: Option<String>,
    pub search_kind: SearchKind,
}

/// The partitions that a scan for `search_kind` reads, in the order it reads them.
pub open spec fn scan_partitions(search_kind: SearchKind) -> Seq<Seq<char>> {
    match search_kind {
        SearchKind::Edge => seq!["edge_vectors"@],
        SearchKind::Node => seq!["node_vectors"@],
        SearchKind::All => seq!["edge_vectors"@, "node_vectors"@],
    }
}

/// The key prefix of a scan: `vec:{kind}:{namespace}:`, or `vec:{kind}:` for every namespace.
pub open spec fn scan_prefix_text(kind: Seq<char>, namespace: Option<String>) -> Seq<char> {
    match namespace {
        Some(ns) => "vec:"@ + kind + ":"@ + ns@ + ":"@,
        None => "vec:"@ + kind + ":"@,
    }
}

/// The search kind whose vectors a partition holds.
pub open spec fn partition_search_kind(partition: Seq<char>) -> Option<SearchKind> {
    if partition == "node_vectors"@ {
        Some(SearchKind::Node)
    } else if partition == "edge_vectors"@ {
        Some(SearchKind::Edge)
    } else {
        None
    }
}

/// The fourth colon-separated field of a key, the fields being those that
/// `splitn(5, ':')` yields: for a vector key, the node (or the edge's source).
pub open spec fn key_node_field(key: Seq<char>) -> Option<Seq<char>> {
    let c1 = next_colon(key, 0);
    let c2 = next_colon(key, c1 + 1);
    let c3 = next_colon(key, c2 + 1);
    if c3 >= key.len() {
        None
    } else {
        Some(key.subrange(c3 + 1, next_colon(key, c3 + 1)))
    }
}

impl VectorScanQuery {
    /// A scan over the vectors of `kind` in every namespace.
    pub fn new(kind: String, search_kind: SearchKind) -> (r: Self)
        ensures
            r.kind == kind,
            r.namespace.is_none(),
            r.search_kind == search_kind,
    {
        VectorScanQuery { kind, namespace: None, search_kind }
    }

    /// The same scan, restricted to `namespace`.
    pub fn with_namespace(self, namespace: String) -> (r: Self)
        ensures
            r == (VectorScanQuery { namespace: Some(namespace), ..self }),
    {
        let mut q = self;
        q.namespace = Some(namespace);
        q
    }

    /// The partitions that the scan reads, in order.
    pub fn partitions(&self) -> (r: Vec<String>)
        ensures
            r@.map_values(|p: String| p@) == scan_partitions(self.search_kind),
    {
        let mut partitions: Vec<String> = Vec::new();
        match self.search_kind {
            SearchKind::Edge => {
                partitions.push(String::from_str("edge_vectors"));
            },
            SearchKind::Node => {
                partitions.push(String::from_str("node_vectors"));
            },
            SearchKind::All => {
                partitions.push(String::from_str("edge_vectors"));
                partitions.push(String::from_str("node_vectors"));
            },
        }
        assert(partitions@.map_values(|p: String| p@) =~= scan_partitions(self.search_kind));
        partitions
    }

    /// The prefix that every key the scan reads starts with.
    pub fn scan_prefix(&self) -> (r: String)
        ensures
            r@ == scan_prefix_text(self.kind@, self.namespace),
    {
        let mut s = String::from_str("vec:");
        s.append(self.kind.as_str());
        s.append(":");
        match &self.namespace {
            Some(ns) => {
                s.append(ns.as_str());
                s.append(":");
            },
            None => {},
        }
        s
    }

    /// The search kind of the vectors that `partition` holds, if it holds vectors.
    pub fn search_kind_from_partition(partition: &str) -> (r: Option<SearchKind>)
        ensures
            r == partition_search_kind(partition@),
    {
        if str_eq(partition, "node_vectors") {
            Some(SearchKind::Node)
        } else if str_eq(partition, "edge_vectors") {
            Some(SearchKind::Edge)
        } else {
            None
        }
    }

    /// The node that a vector key belongs to (for an edge's vector, its source):
    /// the fourth colon-separated field, or `None` where the key has fewer fields.
    pub fn node_id_from_key(key: &str) -> (r: Option<&str>)
        ensures
            r matches Some(id) ==> key_node_field(key@) == Some(id@),
            r is None ==> key_node_field(key@) is None,
    {
        let len = key.unicode_len();
        let c1 = find_colon(key, len, 0);
        if c1 >= len {
            return None;
        }
        let c2 = find_colon(key, len, c1 + 1);
        if c2 >= len {
            return None;
        }
        let c3 = find_colon(key, len, c2 + 1);
        if c3 >= len {
            return None;
        }
        let c4 = find_colon(key, len, c3 + 1);
        proof {
            lemma_next_colon_bounds(key@, c3 + 1);
        }
        Some(key.substring_char(c3 + 1, c4))
    }
}

/// Where the fields of a node's vector key hold no colon, the node that
/// `node_id_from_key` reads from the key is the node the key was made for.
pub proof fn lemma_node_vector_key_names_its_node(kind: Seq<char>, namespace: Seq<char>, node_id: Seq<char>)
    requires
        !has_colon(kind),
        !has_colon(namespace),
        !has_colon(node_id),
    ensures
        key_node_field(node_vector_key_text(kind, namespace, node_id)) == Some(node_id),
{
    reveal_strlit("vec:");
    reveal_strlit(":");
    let key = node_vector_key_text(kind, namespace, node_id);
    let c1 = 3int;
    let c2: int = 4 + kind.len() as int;
    let c3: int = 5 + kind.len() as int + namespace.len() as int;
    assert(key =~= seq!['v', 'e', 'c', ':'] + kind + seq![':'] + namespace + seq![':'] + node_id);
    assert forall|i: int| 0 <= i < c1 implies key[i] != ':' by {}
    lemma_next_colon_at(key, 0, c1);
    assert forall|i: int| c1 + 1 <= i < c2 implies key[i] != ':' by {
        assert(key[i] == kind[i - 4]);
        assert(!kind.contains(':'));
    }
    lemma_next_colon_at(key, c1 + 1, c2);
    assert forall|i: int| c2 + 1 <= i < c3 implies key[i] != ':' by {
        assert(key[i] == namespace[i - c2 - 1]);
        assert(!namespace.contains(':'));
    }
    lemma_next_colon_at(key, c2 + 1, c3);
    assert forall|i: int| c3 + 1 <= i < key.len() implies key[i] != ':' by {
        assert(key[i] == node_id[i - c3 - 1]);
        assert(!node_id.contains(':'));
    }
    lemma_next_colon_at(key, c3 + 1, key.len() as int);
    assert(key.subrange(c3 + 1, key.len() as int) =~= node_id);
}

/// Where the kind, the namespace and the source of an edge's vector key hold
/// no colon, the node that `node_id_from_key` reads from the key is the edge's source.
pub proof fn lemma_edge_vector_key_names_its_source(
    kind: Seq<char>,
    namespace: Seq<char>,
    source: Seq<char>,
    target: Seq<char>,
)
    requires
        !has_colon(kind),
        !has_colon(namespace),
        !has_colon(source),
    ensures
        key_node_field(edge_vector_key_text(kind, namespace, source, target)) == Some(source),
{
    reveal_strlit("vec:");
    reveal_strlit(":");
    let key = edge_vector_key_text(kind, namespace, source, target);
    let c1 = 3int;
    let c2: int = 4 + kind.len() as int;
    let c3: int = 5 + kind.len() as int + namespace.len() as int;
    let c4: int = 6 + kind.len() as int + namespace.len() as int + source.len() as int;
    assert(key =~= seq!['v', 'e', 'c', ':'] + kind + seq![':'] + namespace + seq![':'] + source + seq![':'] + target);
    assert forall|i: int| 0 <= i < c1 implies key[i] != ':' by {}
    lemma_next_colon_at(key, 0, c1);
    assert forall|i: int| c1 + 1 <= i < c2 implies key[i] != ':' by {
        assert(key[i] == kind[i - 4]);
        assert(!kind.contains(':'));
    }
    lemma_next_colon_at(key, c1 + 1, c2);
    assert forall|i: int| c2 + 1 <= i < c3 implies key[i] != ':' by {
        assert(key[i] == namespace[i - c2 - 1]);
        assert(!namespace.contains(':'));
    }
    lemma_next_colon_at(key, c2 + 1, c3);
    assert forall|i: int| c3 + 1 <= i < c4 implies key[i] != ':' by {
        assert(key[i] == source[i - c3 - 1]);
        assert(!source.contains(':'));
    }
    lemma_next_colon_at(key, c3 + 1, c4);
    assert(key.subrange(c3 + 1, c4) =~= source);
}

/// A scan's prefix starts every vector key of the scanned kind: of every
/// namespace where the scan names none, and of its namespace where it names one.
pub proof fn lemma_scan_prefix_starts_vector_keys(
    kind: Seq<char>,
    scan_namespace: Option<String>,
    key_namespace: Option<String>,
    node_id: Seq<char>,
    target: Seq<char>,
)
    requires
        scan_namespace is Some ==> key_namespace == scan_namespace,
    ensures
        scan_prefix_text(kind, scan_namespace).is_prefix_of(
            node_vector_key_text(kind, namespace_text(key_namespace), node_id),
        ),
        scan_prefix_text(kind, scan_namespace).is_prefix_of(
            edge_vector_key_text(kind, namespace_text(key_namespace), node_id, target),
        ),
{
    let p = scan_prefix_text(kind, scan_namespace);
    let nk = node_vector_key_text(kind, namespace_text(key_namespace), node_id);
    let ek = edge_vector_key_text(kind, namespace_text(key_namespace), node_id, target);
    match scan_namespace {
        Some(ns) => {
            assert(nk =~= p + node_id);
            assert(ek =~= p + (node_id + ":"@ + target));
        },
        None => {
            assert(nk =~= p + (namespace_text(key_namespace) + ":"@ + node_id));
            assert(ek =~= p + (namespace_text(key_namespace) + ":"@ + node_id + ":"@ + target));
        },
    }
    assert(p =~= nk.subrange(0, p.len() as int));
    assert(p =~= ek.subrange(0, p.len() as int));
}

proof fn lemma_colon_framed_prefix_unique(head: Seq<char>, a: Seq<char>, b: Seq<char>, rest: Seq<char>)
    requires
        !has_colon(a),
        !has_colon(b),
        (head + a + seq![':']).is_prefix_of(head + b + seq![':'] + rest),
    ensures
        a == b,
{
    let p = head + a + seq![':'];
    let k = head + b + seq![':'] + rest;
    let h = head.len() as int;
    if a.len() < b.len() {
        assert(p[h + a.len()] == ':');
        assert(k[h + a.len()] == b[a.len() as int]);
        assert(p[h + a.len()] == k[h + a.len()]);
        assert(b.contains(':'));
    } else if a.len() > b.len() {
        assert(k[h + b.len()] == ':');
        assert(p[h + b.len()] == a[b.len() as int]);
        assert(p[h + b.len()] == k[h + b.len()]);
        assert(a.contains(':'));
    } else {
        assert forall|i: int| 0 <= i < a.len() implies a[i] == b[i] by {
            assert(p[h + i] == k[h + i]);
        }
        assert(a =~= b);
    }
}

proof fn lemma_colon_framed_split(head: Seq<char>, a: Seq<char>, r1: Seq<char>, b: Seq<char>, r2: Seq<char>)
    requires
        !has_colon(a),
        !has_colon(b),
        head + a + seq![':'] + r1 == head + b + seq![':'] + r2,
    ensures
        a == b,
        r1 == r2,
{
    let k1 = head + a + seq![':'] + r1;
    let p = head + a + seq![':'];
    assert(p =~= k1.subrange(0, p.len() as int));
    lemma_colon_framed_prefix_unique(head, a, b, r2);
    assert(r1 =~= k1.subrange(p.len() as int, k1.len() as int));
    assert(r2 =~= (head + b + seq![':'] + r2).subrange(p.len() as int, k1.len() as int));
}

proof fn lemma_head_cancel(head: Seq<char>, a: Seq<char>, b: Seq<char>)
    requires
        head + a == head + b,
    ensures
        a == b,
{
    assert(a =~= (head + a).subrange(head.len() as int, (head + a).len() as int));
    assert(b =~= (head + b).subrange(head.len() as int, (head + b).len() as int));
}

/// Node entries and edge entries are told apart by their keys: equal keys name
/// the same node, or the same edge.
pub proof fn lemma_record_keys_injective(a: Seq<char>, b: Seq<char>)
    ensures
        "node:"@ + a == "node:"@ + b ==> a == b,
        "edge:"@ + a == "edge:"@ + b ==> a == b,
{
    if "node:"@ + a == "node:"@ + b {
        lemma_head_cancel("node:"@, a, b);
    }
    if "edge:"@ + a == "edge:"@ + b {
        lemma_head_cancel("edge:"@, a, b);
    }
}

/// Where kinds and namespaces hold no colon, equal node-vector keys name the
/// same kind, namespace and node.
pub proof fn lemma_node_vector_keys_injective(
    kind: Seq<char>, namespace: Seq<char>, node_id: Seq<char>,
    kind2: Seq<char>, namespace2: Seq<char>, node_id2: Seq<char>,
)
    requires
        !has_colon(kind),
        !has_colon(kind2),
        !has_colon(namespace),
        !has_colon(namespace2),
        node_vector_key_text(kind, namespace, node_id) == node_vector_key_text(kind2, namespace2, node_id2),
    ensures
        kind == kind2,
        namespace == namespace2,
        node_id == node_id2,
{
    reveal_strlit(":");
    let v = "vec:"@;
    assert(node_vector_key_text(kind, namespace, node_id) =~= v + kind + seq![':'] + (namespace + seq![':'] + node_id));
    assert(node_vector_key_text(kind2, namespace2, node_id2) =~= v + kind2 + seq![':'] + (namespace2 + seq![':'] + node_id2));
    lemma_colon_framed_split(v, kind, namespace + seq![':'] + node_id, kind2, namespace2 + seq![':'] + node_id2);
    assert(namespace + seq![':'] + node_id =~= Seq::<char>::empty() + namespace + seq![':'] + node_id);
    assert(namespace2 + seq![':'] + node_id2 =~= Seq::<char>::empty() + namespace2 + seq![':'] + node_id2);
    lemma_colon_framed_split(Seq::empty(), namespace, node_id, namespace2, node_id2);
}

/// Where kinds, namespaces and sources hold no colon, equal edge-vector keys
/// name the same kind, namespace, source and target.
pub proof fn lemma_edge_vector_keys_injective(
    kind: Seq<char>, namespace: Seq<char>, source: Seq<char>, target: Seq<char>,
    kind2: Seq<char>, namespace2: Seq<char>, source2: Seq<char>, target2: Seq<char>,
)
    requires
        !has_colon(kind),
        !has_colon(kind2),
        !has_colon(namespace),
        !has_colon(namespace2),
        !has_colon(source),
        !has_colon(source2),
        edge_vector_key_text(kind, namespace, source, target) == edge_vector_key_text(kind2, namespace2, source2, target2),
    ensures
        kind == kind2,
        namespace == namespace2,
        source == source2,
        target == target2,
{
    reveal_strlit(":");
    let e = Seq::<char>::empty();
    assert(edge_vector_key_text(kind, namespace, source, target)
        =~= node_vector_key_text(kind, namespace, source + seq![':'] + target));
    assert(edge_vector_key_text(kind2, namespace2, source2, target2)
        =~= node_vector_key_text(kind2, namespace2, source2 + seq![':'] + target2));
    lemma_node_vector_keys_injective(kind, namespace, source + seq![':'] + target, kind2, namespace2, source2 + seq![':'] + target2);
    assert(source + seq![':'] + target =~= e + source + seq![':'] + target);
    assert(source2 + seq![':'] + target2 =~= e + source2 + seq![':'] + target2);
    lemma_colon_framed_split(e, source, target, source2, target2);
}

/// Where node identifiers hold no colon, equal forward-index keys (and equal
/// reverse-index keys) name the same node and edge.
pub proof fn lemma_index_keys_injective(node_id: Seq<char>, edge_id: Seq<char>, node_id2: Seq<char>, edge_id2: Seq<char>)
    requires
        !has_colon(node_id),
        !has_colon(node_id2),
    ensures
        edges_for_node_prefix_text(node_id) + edge_id == edges_for_node_prefix_text(node_id2) + edge_id2
            ==> node_id == node_id2 && edge_id == edge_id2,
        edges_targeting_node_prefix_text(node_id) + edge_id == edges_targeting_node_prefix_text(node_id2) + edge_id2
            ==> node_id == node_id2 && edge_id == edge_id2,
{
    reveal_strlit(":");
    assert(edges_for_node_prefix_text(node_id) + edge_id =~= "efn:"@ + node_id + seq![':'] + edge_id);
    assert(edges_for_node_prefix_text(node_id2) + edge_id2 =~= "efn:"@ + node_id2 + seq![':'] + edge_id2);
    assert(edges_targeting_node_prefix_text(node_id) + edge_id =~= "etn:"@ + node_id + seq![':'] + edge_id);
    assert(edges_targeting_node_prefix_text(node_id2) + edge_id2 =~= "etn:"@ + node_id2 + seq![':'] + edge_id2);
    if edges_for_node_prefix_text(node_id) + edge_id == edges_for_node_prefix_text(node_id2) + edge_id2 {
        lemma_colon_framed_split("efn:"@, node_id, edge_id, node_id2, edge_id2);
    }
    if edges_targeting_node_prefix_text(node_id) + edge_id == edges_targeting_node_prefix_text(node_id2) + edge_id2 {
        lemma_colon_framed_split("etn:"@, node_id, edge_id, node_id2, edge_id2);
    }
}

/// Where kinds hold no colon, distinct (kind, name) pairs have distinct mapping keys.
pub proof fn lemma_name_mapping_keys_injective(kind: Seq<char>, name: Seq<char>, kind2: Seq<char>, name2: Seq<char>)
    requires
        !has_colon(kind),
        !has_colon(kind2),
        name_mapping_key_text(kind, name) == name_mapping_key_text(kind2, name2),
    ensures
        kind == kind2,
        name == name2,
{
    reveal_strlit(":");
    assert(name_mapping_key_text(kind, name) =~= "name:"@ + kind + seq![':'] + name);
    assert(name_mapping_key_text(kind2, name2) =~= "name:"@ + kind2 + seq![':'] + name2);
    lemma_colon_framed_split("name:"@, kind, name, kind2, name2);
}

/// Where kinds and namespaces hold no colon, a vector key that a scan's prefix
/// starts belongs to the scanned kind, and to the scanned namespace where the
/// scan names one (`rest` is the node, or the edge's source and target).
pub proof fn lemma_scan_prefix_selects_kind_and_namespace(
    kind: Seq<char>,
    namespace: Option<String>,
    key_kind: Seq<char>,
    key_namespace: Seq<char>,
    rest: Seq<char>,
)
    requires
        !has_colon(kind),
        !has_colon(key_kind),
        !has_colon(key_namespace),
        namespace matches Some(ns) ==> !has_colon(ns@),
        scan_prefix_text(kind, namespace).is_prefix_of(node_vector_key_text(key_kind, key_namespace, rest)),
    ensures
        kind == key_kind,
        namespace matches Some(ns) ==> ns@ == key_namespace,
{
    reveal_strlit(":");
    let v = "vec:"@;
    let key = node_vector_key_text(key_kind, key_namespace, rest);
    assert(key =~= v + key_kind + seq![':'] + (key_namespace + seq![':'] + rest));
    let p1 = v + kind + seq![':'];
    let p = scan_prefix_text(kind, namespace);
    assert(p1 =~= p.subrange(0, p1.len() as int));
    assert(p1 =~= key.subrange(0, p1.len() as int));
    assert(p1.is_prefix_of(v + key_kind + seq![':'] + (key_namespace + seq![':'] + rest)));
    lemma_colon_framed_prefix_unique(v, kind, key_kind, key_namespace + seq![':'] + rest);
    match namespace {
        Some(ns) => {
            assert(p =~= p1 + ns@ + seq![':']);
            assert(key =~= p1 + key_namespace + seq![':'] + rest);
            lemma_colon_framed_prefix_unique(p1, ns@, key_namespace, rest);
        },
        None => {},
    }
}

/// Where node identifiers hold no colon, a forward-index key that starts with
/// the prefix of `node_id` lists an edge leaving `node_id` and no other node.
pub proof fn lemma_edges_for_node_prefix_selects_node(node_id: Seq<char>, other: Seq<char>, edge_id: Seq<char>)
    requires
        !has_colon(node_id),
        !has_colon(other),
        edges_for_node_prefix_text(node_id).is_prefix_of(edges_for_node_prefix_text(other) + edge_id),
    ensures
        node_id == other,
{
    reveal_strlit(":");
    assert(edges_for_node_prefix_text(node_id) =~= "efn:"@ + node_id + seq![':']);
    assert(edges_for_node_prefix_text(other) + edge_id =~= "efn:"@ + other + seq![':'] + edge_id);
    lemma_colon_framed_prefix_unique("efn:"@, node_id, other, edge_id);
}

/// Where node identifiers hold no colon, a reverse-index key that starts with
/// the prefix of `node_id` lists an edge entering `node_id` and no other node.
pub proof fn lemma_edges_targeting_node_prefix_selects_node(node_id: Seq<char>, other: Seq<char>, edge_id: Seq<char>)
    requires
        !has_colon(node_id),
        !has_colon(other),
        edges_targeting_node_prefix_text(node_id).is_prefix_of(edges_targeting_node_prefix_text(other) + edge_id),
    ensures
        node_id == other,
{
    reveal_strlit(":");
    assert(edges_targeting_node_prefix_text(node_id) =~= "etn:"@ + node_id + seq![':']);
    assert(edges_targeting_node_prefix_text(other) + edge_id =~= "etn:"@ + other + seq![':'] + edge_id);
    lemma_colon_framed_prefix_unique("etn:"@, node_id, other, edge_id);
}

/// Two edges of one kind from one source in one namespace, towards different
/// targets, keep their vectors under different keys.
pub proof fn lemma_edge_vector_keys_differ_by_target(
    kind: Seq<char>,
    namespace: Seq<char>,
    source: Seq<char>,
    target: Seq<char>,
    other_target: Seq<char>,
)
    requires
        target != other_target,
    ensures
        edge_vector_key_text(kind, namespace, source, target) != edge_vector_key_text(kind, namespace, source, other_target),
{
    let head = "vec:"@ + kind + ":"@ + namespace + ":"@ + source + ":"@;
    assert(edge_vector_key_text(kind, namespace, source, target) =~= head + target);
    assert(edge_vector_key_text(kind, namespace, source, other_target) =~= head + other_target);
    if head + target == head + other_target {
        assert(target =~= (head + target).subrange(head.len() as int, (head + target).len() as int));
        assert(other_target =~= (head + other_target).subrange(head.len() as int, (head + other_target).len() as int));
    }
}

/// Every partition that a scan reads holds vectors of a kind that the scan asked
/// for; a scan reads at least one, and a scan of both kinds reads those of both.
pub proof fn lemma_scan_partitions_hold_requested_kind(search_kind: SearchKind)
    ensures
        forall|i: int| 0 <= i < scan_partitions(search_kind).len() ==> {
            let found = partition_search_kind(#[trigger] scan_partitions(search_kind)[i]);
            &&& found is Some
            &&& (search_kind == SearchKind::All || found == Some(search_kind))
        },
        scan_partitions(search_kind).len() > 0,
        search_kind == SearchKind::All ==> {
            &&& exists|i: int| 0 <= i < scan_partitions(search_kind).len()
                && partition_search_kind(#[trigger] scan_partitions(search_kind)[i]) == Some(SearchKind::Node)
            &&& exists|i: int| 0 <= i < scan_partitions(search_kind).len()
                && partition_search_kind(#[trigger] scan_partitions(search_kind)[i]) == Some(SearchKind::Edge)
        },
{
    reveal_strlit("node_vectors");
    reveal_strlit("edge_vectors");
    assert("node_vectors"@ != "edge_vectors"@) by {
        assert("node_vectors"@[0] != "edge_vectors"@[0]);
    }
    if search_kind == SearchKind::All {
        assert(partition_search_kind(scan_partitions(search_kind)[0]) == Some(SearchKind::Edge));
        assert(partition_search_kind(scan_partitions(search_kind)[1]) == Some(SearchKind::Node));
    }
}

} // verus!
