//! The writes that each store operation makes to the key-value backend.
//!
//! Every operation that changes the graph is a list of operations on the
//! backend, made here from the values it stores; the caller performs them in
//! order against the backend. A write or a required removal that fails ends
//! the operation with a storage error; an optional removal may fail silently.

use vstd::prelude::*;
use vstd::utf8::encode_utf8;
use crate::edge::{edge_key_id_text, lemma_edge_ids_differ_by_target, Edge};
use crate::ids::{EdgeId, NodeId};
use crate::keys::{lemma_name_mapping_keys_injective, lemma_record_keys_injective, name_mapping_key_text, StorageKey};
use crate::text::has_colon;
use crate::node::Node;
use crate::keys::edges_for_node_prefix_text;
use crate::keys::edges_targeting_node_prefix_text;
use crate::text::{decode_utf8_lossy, lemma_text_bytes_roundtrip, text_bytes, utf8_lossy};
use vstd::utf8::{decode_utf8, valid_utf8};

verus! {

/// One operation on the key-value backend.
#[derive(Debug)]
pub enum KvOp {
    /// Store `value` under `key` in `partition`.
    Put { partition: &'static str, key: String, value: Vec<u8> },
    /// Remove `key` from `partition`; where `required` is false, a failure is ignored.
    Remove { partition: &'static str, key: String, required: bool },
}

/// The content of a backend operation.
pub enum KvOpView {
    Put { partition: Seq<char>, key: Seq<char>, value: Seq<u8> },
    Remove { partition: Seq<char>, key: Seq<char>, required: bool },
}

impl View for KvOp {
    type V = KvOpView;

    open spec fn view(&self) -> KvOpView {
        match self {
            KvOp::Put { partition, key, value } => KvOpView::Put {
                partition: partition@,
                key: key@,
                value: value@,
            },
            KvOp::Remove { partition, key, required } => KvOpView::Remove {
                partition: partition@,
                key: key@,
                required: *required,
            },
        }
    }
}

/// The content of a list of backend operations.
pub open spec fn ops_view(ops: Seq<KvOp>) -> Seq<KvOpView> {
    ops.map_values(|op: KvOp| op@)
}

/// What the backend holds: the value under each partition and key.
pub type StoreContents = Map<(Seq<char>, Seq<char>), Seq<u8>>;

/// The backend after one operation.
pub open spec fn apply_op(store: StoreContents, op: KvOpView) -> StoreContents {
    match op {
        KvOpView::Put { partition, key, value } => store.insert((partition, key), value),
        KvOpView::Remove { partition, key, required } => store.remove((partition, key)),
    }
}

/// The backend after the operations, performed in order.
pub open spec fn apply_ops(store: StoreContents, ops: Seq<KvOpView>) -> StoreContents
    decreases ops.len(),
{
    if ops.len() == 0 {
        store
    } else {
        apply_ops(apply_op(store, ops[0]), ops.drop_first())
    }
}

/// Where an entry lives: its partition and its key.
pub open spec fn entry(key: StorageKey) -> (Seq<char>, Seq<char>) {
    (key.partition_text(), key.key_text())
}

/// Storing a value under an entry.
pub open spec fn put(key: StorageKey, value: Seq<u8>) -> KvOpView {
    KvOpView::Put { partition: key.partition_text(), key: key.key_text(), value }
}

/// Removing an entry.
pub open spec fn remove(key: StorageKey, required: bool) -> KvOpView {
    KvOpView::Remove { partition: key.partition_text(), key: key.key_text(), required }
}

/// The entry of a node's vector.
pub open spec fn node_vector_entry_key(node: Node) -> StorageKey {
    StorageKey::NodeVector { kind: node.kind, namespace: node.namespace, node_id: node.id }
}

/// The entry of an edge's vector, the edge's source being in `namespace`.
pub open spec fn edge_vector_entry_key(edge: Edge, namespace: Option<String>) -> StorageKey {
    StorageKey::EdgeVector {
        edge_kind: edge.kind,
        namespace,
        source_node_id: edge.source_node_id,
        target_node_id: edge.target_node_id,
    }
}

/// Storing a node: its encoding under its entry.
pub open spec fn insert_node_plan(node: Node, encoded: Seq<u8>) -> Seq<KvOpView> {
    seq![put(StorageKey::Node(node.id), encoded)]
}

/// Storing a node with its vector: the node, then the vector's bytes under the
/// entry named by the node's kind, namespace and identity.
pub open spec fn insert_node_with_vector_plan(node: Node, encoded: Seq<u8>, vector: Seq<u8>) -> Seq<KvOpView> {
    insert_node_plan(node, encoded).push(put(node_vector_entry_key(node), vector))
}

/// Storing an edge: its encoding under its entry, then its identifier in the
/// forward index of its source and in the reverse index of its target.
pub open spec fn insert_edge_plan(edge: Edge, encoded: Seq<u8>) -> Seq<KvOpView> {
    seq![
        put(StorageKey::Edge(edge.id), encoded),
        put(StorageKey::EdgesForNode { node_id: edge.source_node_id, edge_id: edge.id }, encode_utf8(edge.id@)),
        put(StorageKey::EdgesTargetingNode { node_id: edge.target_node_id, edge_id: edge.id }, encode_utf8(edge.id@)),
    ]
}

/// Storing an edge with its vector: the edge and both index entries, then the
/// vector's bytes under the entry named by the edge and its source's namespace.
pub open spec fn insert_edge_with_vector_plan(
    edge: Edge,
    encoded: Seq<u8>,
    source_namespace: Option<String>,
    vector: Seq<u8>,
) -> Seq<KvOpView> {
    insert_edge_plan(edge, encoded).push(put(edge_vector_entry_key(edge, source_namespace), vector))
}

/// Deleting the edge stored under `id`, which is `edge`: its entry (required),
/// then its vector, its forward and its reverse index entries (each allowed to fail).
pub open spec fn delete_edge_plan(id: EdgeId, edge: Edge, source_namespace: Option<String>) -> Seq<KvOpView> {
    seq![
        remove(StorageKey::Edge(id), true),
        remove(edge_vector_entry_key(edge, source_namespace), false),
        remove(StorageKey::EdgesForNode { node_id: edge.source_node_id, edge_id: id }, false),
        remove(StorageKey::EdgesTargetingNode { node_id: edge.target_node_id, edge_id: id }, false),
    ]
}

/// Deleting each listed edge (with the namespace of its source), in order.
pub open spec fn delete_edges_plan(edges: Seq<(Edge, Option<String>)>) -> Seq<KvOpView>
    decreases edges.len(),
{
    if edges.len() == 0 {
        Seq::empty()
    } else {
        delete_edges_plan(edges.drop_last()) + delete_edge_plan(edges.last().0.id, edges.last().0, edges.last().1)
    }
}

/// Deleting a node with its edges: first each edge leaving or entering it (as
/// listed, each with its source's namespace), then the node's entry (required)
/// and, where the node was found, its vector (allowed to fail).
pub open spec fn delete_node_plan(id: NodeId, node: Option<Node>, edges: Seq<(Edge, Option<String>)>) -> Seq<KvOpView> {
    delete_edges_plan(edges) + match node {
        Some(n) => seq![
            remove(StorageKey::Node(id), true),
            remove(StorageKey::NodeVector { kind: n.kind, namespace: n.namespace, node_id: id }, false),
        ],
        None => seq![remove(StorageKey::Node(id), true)],
    }
}

/// The entries that deleting an edge removes.
pub open spec fn edge_entries(edge: Edge, source_namespace: Option<String>) -> Set<(Seq<char>, Seq<char>)> {
    set![
        entry(StorageKey::Edge(edge.id)),
        entry(edge_vector_entry_key(edge, source_namespace)),
        entry(StorageKey::EdgesForNode { node_id: edge.source_node_id, edge_id: edge.id }),
        entry(StorageKey::EdgesTargetingNode { node_id: edge.target_node_id, edge_id: edge.id }),
    ]
}

/// The entries that deleting the listed edges removes.
pub open spec fn edges_entries(edges: Seq<(Edge, Option<String>)>) -> Set<(Seq<char>, Seq<char>)>
    decreases edges.len(),
{
    if edges.len() == 0 {
        Set::empty()
    } else {
        edges_entries(edges.drop_last()).union(edge_entries(edges.last().0, edges.last().1))
    }
}

/// The entries that deleting a node with its listed edges removes.
pub open spec fn node_cascade_entries(id: NodeId, node: Option<Node>, edges: Seq<(Edge, Option<String>)>) -> Set<(Seq<char>, Seq<char>)> {
    edges_entries(edges).union(match node {
        Some(n) => set![
            entry(StorageKey::Node(id)),
            entry(StorageKey::NodeVector { kind: n.kind, namespace: n.namespace, node_id: id }),
        ],
        None => set![entry(StorageKey::Node(id))],
    })
}

/// Mapping the name `name` of kind `kind` to a node: the node's encoded identifier.
pub open spec fn set_name_mapping_plan(kind: Seq<char>, name: Seq<char>, encoded_node_id: Seq<u8>) -> Seq<KvOpView> {
    seq![KvOpView::Put { partition: "names"@, key: name_mapping_key_text(kind, name), value: encoded_node_id }]
}

/// Removing the mapping of a name.
pub open spec fn delete_name_mapping_plan(kind: Seq<char>, name: Seq<char>) -> Seq<KvOpView> {
    seq![KvOpView::Remove { partition: "names"@, key: name_mapping_key_text(kind, name), required: true }]
}

/// The entry from which the vector of the node stored under `id`, found to be
/// `node`, is read: named by the node's kind and namespace and by `id`.
pub fn node_vector_read_key(node: &Node, id: &NodeId) -> (r: StorageKey)
    ensures
        r == (StorageKey::NodeVector { kind: node.kind, namespace: node.namespace, node_id: *id }),
{
    StorageKey::NodeVector { kind: node.kind.clone(), namespace: node.namespace.clone(), node_id: id.clone() }
}

/// The entry from which the vector of `edge` is read, its source node being in `source_namespace`.
pub fn edge_vector_read_key(edge: &Edge, source_namespace: Option<String>) -> (r: StorageKey)
    ensures
        r == edge_vector_entry_key(*edge, source_namespace),
{
    StorageKey::EdgeVector {
        edge_kind: edge.kind.clone(),
        namespace: source_namespace,
        source_node_id: edge.source_node_id.clone(),
        target_node_id: edge.target_node_id.clone(),
    }
}

/// The edge that an index entry lists: its stored value read as text.
pub fn indexed_edge_id(value: &[u8]) -> (r: EdgeId)
    ensures
        r@ == utf8_lossy(value@),
        r@ == index_value_id(value@),
{
    EdgeId::new(decode_utf8_lossy(value))
}

/// Whether a failure of the operation ends the store operation with a storage
/// error: a failed write does, a failed removal does where it is required.
pub open spec fn stops_on_failure(op: KvOpView) -> bool {
    match op {
        KvOpView::Put { .. } => true,
        KvOpView::Remove { required, .. } => required,
    }
}

/// Whether a failure of `op` ends the store operation with a storage error.
pub fn failure_is_fatal(op: &KvOp) -> (r: bool)
    ensures
        r == stops_on_failure(op@),
        r == match op {
            KvOp::Put { .. } => true,
            KvOp::Remove { required, .. } => *required,
        },
{
    match op {
        KvOp::Put { .. } => true,
        KvOp::Remove { required, .. } => *required,
    }
}

/// The backend after the operations are performed in order, where `failed[i]`
/// tells that operation `i` failed (and changed nothing), and whether the store
/// operation succeeded: it stops at the first failure that `stops_on_failure`.
pub open spec fn perform_ops(store: StoreContents, ops: Seq<KvOpView>, failed: Seq<bool>) -> (StoreContents, bool)
    decreases ops.len(),
{
    if ops.len() == 0 {
        (store, true)
    } else if failed.len() > 0 && failed[0] {
        if stops_on_failure(ops[0]) {
            (store, false)
        } else {
            perform_ops(store, ops.drop_first(), failed.drop_first())
        }
    } else {
        perform_ops(apply_op(store, ops[0]), ops.drop_first(), failed.drop_first())
    }
}

/// The edges that a scan of an index finds: each entry's value read as an edge
/// identifier (see `indexed_edge_id`), kept where an edge is stored there.
pub open spec fn found_edges(found: Seq<Option<Edge>>) -> Seq<Edge>
    decreases found.len(),
{
    if found.len() == 0 {
        Seq::empty()
    } else {
        match found.last() {
            Some(e) => found_edges(found.drop_last()).push(e),
            None => found_edges(found.drop_last()),
        }
    }
}

/// Every edge that a scan finds is kept, in the order of the scan: nothing is
/// found in no entry, an entry with a stored edge adds that edge at the end, and
/// an entry without one adds nothing.
pub proof fn lemma_found_edges_keep_every_find(found: Seq<Option<Edge>>, e: Edge)
    ensures
        found_edges(Seq::<Option<Edge>>::empty()) == Seq::<Edge>::empty(),
        found_edges(found.push(Some(e))) == found_edges(found).push(e),
        found_edges(found.push(None)) == found_edges(found),
        found_edges(seq![Some(e)]) == seq![e],
{
    assert(found.push(Some(e)).drop_last() =~= found);
    assert(found.push(None::<Edge>).drop_last() =~= found);
    let empty = Seq::<Option<Edge>>::empty();
    assert(found_edges(empty) == Seq::<Edge>::empty());
    assert(seq![Some(e)] =~= empty.push(Some(e)));
    assert(empty.push(Some(e)).drop_last() =~= empty);
    assert(found_edges(empty.push(Some(e))) == found_edges(empty).push(e));
    assert(Seq::<Edge>::empty().push(e) =~= seq![e]);
}

/// The edges a scan finds are exactly those of its entries that hold an edge,
/// and there are no more of them than entries.
pub proof fn lemma_found_edges_members(found: Seq<Option<Edge>>)
    ensures
        forall|e: Edge| #[trigger] found_edges(found).contains(e) <==> found.contains(Some(e)),
        found_edges(found).len() <= found.len(),
    decreases found.len(),
{
    if found.len() > 0 {
        let prev = found.drop_last();
        lemma_found_edges_members(prev);
        assert(found =~= prev.push(found.last()));
        let fe = found_edges(found);
        let pe = found_edges(prev);
        assert forall|e: Edge| #[trigger] found_edges(found).contains(e) implies found.contains(Some(e)) by {
            let j = choose|j: int| 0 <= j < fe.len() && fe[j] == e;
            match found.last() {
                Some(x) => {
                    assert(fe == pe.push(x));
                    if j < pe.len() {
                        assert(pe[j] == e);
                        assert(pe.contains(e));
                        let i = choose|i: int| 0 <= i < prev.len() && prev[i] == Some(e);
                        assert(found[i] == Some(e));
                    } else {
                        assert(found[found.len() - 1] == Some(e));
                    }
                },
                None => {
                    assert(fe == pe);
                    assert(pe.contains(e));
                    let i = choose|i: int| 0 <= i < prev.len() && prev[i] == Some(e);
                    assert(found[i] == Some(e));
                },
            }
        }
        assert forall|e: Edge| found.contains(Some(e)) implies #[trigger] found_edges(found).contains(e) by {
            let i = choose|i: int| 0 <= i < found.len() && found[i] == Some(e);
            match found.last() {
                Some(x) => {
                    assert(fe == pe.push(x));
                    if i < prev.len() {
                        assert(prev[i] == Some(e));
                        assert(pe.contains(e));
                        let j = choose|j: int| 0 <= j < pe.len() && pe[j] == e;
                        assert(fe[j] == e);
                    } else {
                        assert(fe[pe.len() as int] == e);
                    }
                },
                None => {
                    assert(fe == pe);
                    assert(i < prev.len());
                    assert(prev[i] == Some(e));
                    assert(pe.contains(e));
                },
            }
        }
    }
}

/// The edges found for the entries of an index scan, in order; an entry whose
/// edge is not stored (or could not be read) is passed over.
pub fn collect_found_edges(found: Vec<Option<Edge>>) -> (r: Vec<Edge>)
    ensures
        r@ == found_edges(found@),
        forall|e: Edge| #[trigger] r@.contains(e) <==> found@.contains(Some(e)),
        r@.len() <= found@.len(),
{
    proof {
        lemma_found_edges_members(found@);
    }
    let total = found.len();
    let ghost input = found@;
    let mut rest = found;
    let mut edges: Vec<Edge> = Vec::new();
    let mut k: usize = 0;
    assert(input.take(0) =~= Seq::<Option<Edge>>::empty());
    while rest.len() > 0
        invariant
            total == input.len(),
            k + rest@.len() == total,
            rest@ == input.skip(k as int),
            edges@ == found_edges(input.take(k as int)),
        decreases rest.len(),
    {
        let item = rest.remove(0);
        assert(input.take(k + 1).drop_last() =~= input.take(k as int));
        assert(input.take(k + 1).last() == item);
        match item {
            Some(e) => edges.push(e),
            None => {},
        }
        k = k + 1;
        assert(rest@ =~= input.skip(k as int));
    }
    assert(input.take(k as int) =~= input);
    edges
}

/// The bytes stored under an entry, if any.
pub open spec fn stored_bytes(store: StoreContents, key: StorageKey) -> Option<Seq<u8>> {
    if store.contains_key(entry(key)) {
        Some(store[entry(key)])
    } else {
        None
    }
}

/// The edge that a read of `id` gives, `decode` reading an edge's stored encoding.
pub open spec fn stored_edge(store: StoreContents, id: EdgeId, decode: spec_fn(Seq<u8>) -> Option<Edge>) -> Option<Edge> {
    match stored_bytes(store, StorageKey::Edge(id)) {
        Some(bytes) => decode(bytes),
        None => None,
    }
}

/// The node that a read of `id` gives, `decode` reading a node's stored encoding.
pub open spec fn stored_node(store: StoreContents, id: NodeId, decode: spec_fn(Seq<u8>) -> Option<Node>) -> Option<Node> {
    match stored_bytes(store, StorageKey::Node(id)) {
        Some(bytes) => decode(bytes),
        None => None,
    }
}

/// The edge identifier that an index entry's value names.
pub open spec fn index_value_id(value: Seq<u8>) -> Seq<char> {
    if valid_utf8(value) {
        decode_utf8(value)
    } else {
        utf8_lossy(value)
    }
}

/// The edges that reading an index of `partition` under `prefix` returns,
/// by identifier: those that some entry names and that are stored.
pub open spec fn found_edge_ids(
    store: StoreContents,
    partition: Seq<char>,
    prefix: Seq<char>,
    decode: spec_fn(Seq<u8>) -> Option<Edge>,
) -> Set<Seq<char>> {
    Set::new(|id: Seq<char>| exists|key: Seq<char>| {
        &&& store.contains_key((partition, key))
        &&& prefix.is_prefix_of(key)
        &&& #[trigger] index_value_id(store[(partition, key)]) == id
        &&& store.contains_key(("edges"@, "edge:"@ + id))
        &&& decode(store[("edges"@, "edge:"@ + id)]) is Some
    })
}

/// The backend after deleting the edge stored under `id`: unchanged where none
/// is stored, or its record cannot be read; else after `delete_edge_plan`.
pub open spec fn delete_edge_model(
    store: StoreContents,
    id: EdgeId,
    decode: spec_fn(Seq<u8>) -> Option<Edge>,
    source_namespace: Option<String>,
) -> StoreContents {
    match stored_edge(store, id, decode) {
        Some(edge) => apply_ops(store, delete_edge_plan(id, edge, source_namespace)),
        None => store,
    }
}

/// The vector bytes that a read of the edge `id`'s vector gives, its source
/// node being in `source_namespace`: none where no edge is stored under `id`.
pub open spec fn stored_edge_vector(
    store: StoreContents,
    id: EdgeId,
    decode: spec_fn(Seq<u8>) -> Option<Edge>,
    source_namespace: Option<String>,
) -> Option<Seq<u8>> {
    match stored_edge(store, id, decode) {
        Some(edge) => stored_bytes(store, edge_vector_entry_key(edge, source_namespace)),
        None => None,
    }
}

/// The vector bytes that a read of the node `id`'s vector gives: read under the
/// entry that the stored node's kind and namespace and `id` name; none where no
/// node is stored under `id`.
pub open spec fn stored_node_vector(store: StoreContents, id: NodeId, decode: spec_fn(Seq<u8>) -> Option<Node>) -> Option<Seq<u8>> {
    match stored_node(store, id, decode) {
        Some(node) => stored_bytes(
            store,
            StorageKey::NodeVector { kind: node.kind, namespace: node.namespace, node_id: id },
        ),
        None => None,
    }
}

/// The bytes stored for the mapping of `name` of kind `kind`.
pub open spec fn stored_mapping(store: StoreContents, kind: Seq<char>, name: Seq<char>) -> Option<Seq<u8>> {
    if store.contains_key(("names"@, name_mapping_key_text(kind, name))) {
        Some(store[("names"@, name_mapping_key_text(kind, name))])
    } else {
        None
    }
}

fn put_op(key: StorageKey, value: Vec<u8>) -> (r: KvOp)
    ensures
        r@ == put(key, value@),
{
    KvOp::Put { partition: key.partition(), key: key.key(), value }
}

fn remove_op(key: StorageKey, required: bool) -> (r: KvOp)
    ensures
        r@ == remove(key, required),
{
    KvOp::Remove { partition: key.partition(), key: key.key(), required }
}

/// The writes that store a node, given its encoding.
pub fn insert_node_ops(node: &Node, encoded: Vec<u8>) -> (r: Vec<KvOp>)
    ensures
        ops_view(r@) == insert_node_plan(*node, encoded@),
{
    let mut ops: Vec<KvOp> = Vec::new();
    ops.push(put_op(StorageKey::Node(node.id.clone()), encoded));
    assert(ops_view(ops@) =~= insert_node_plan(*node, encoded@));
    ops
}

/// The writes that store a node and its vector, given the node's encoding and
/// the vector's bytes.
pub fn insert_node_with_vector_ops(node: &Node, encoded: Vec<u8>, vector: Vec<u8>) -> (r: Vec<KvOp>)
    ensures
        ops_view(r@) == insert_node_with_vector_plan(*node, encoded@, vector@),
{
    let mut ops = insert_node_ops(node, encoded);
    let key = StorageKey::NodeVector {
        kind: node.kind.clone(),
        namespace: node.namespace.clone(),
        node_id: node.id.clone(),
    };
    ops.push(put_op(key, vector));
    assert(ops_view(ops@) =~= insert_node_with_vector_plan(*node, encoded@, vector@));
    ops
}

/// The writes that store an edge and its two index entries, given its encoding.
pub fn insert_edge_ops(edge: &Edge, encoded: Vec<u8>) -> (r: Vec<KvOp>)
    ensures
        ops_view(r@) == insert_edge_plan(*edge, encoded@),
{
    let mut ops: Vec<KvOp> = Vec::new();
    ops.push(put_op(StorageKey::Edge(edge.id.clone()), encoded));
    let forward = StorageKey::EdgesForNode { node_id: edge.source_node_id.clone(), edge_id: edge.id.clone() };
    ops.push(put_op(forward, text_bytes(edge.id.as_str())));
    let reverse = StorageKey::EdgesTargetingNode { node_id: edge.target_node_id.clone(), edge_id: edge.id.clone() };
    ops.push(put_op(reverse, text_bytes(edge.id.as_str())));
    assert(ops_view(ops@) =~= insert_edge_plan(*edge, encoded@));
    ops
}

/// The writes that store an edge, its index entries and its vector, given the
/// edge's encoding, the namespace of its source node and the vector's bytes.
pub fn insert_edge_with_vector_ops(
    edge: &Edge,
    encoded: Vec<u8>,
    source_namespace: Option<String>,
    vector: Vec<u8>,
) -> (r: Vec<KvOp>)
    ensures
        ops_view(r@) == insert_edge_with_vector_plan(*edge, encoded@, source_namespace, vector@),
{
    let mut ops = insert_edge_ops(edge, encoded);
    let key = StorageKey::EdgeVector {
        edge_kind: edge.kind.clone(),
        namespace: source_namespace,
        source_node_id: edge.source_node_id.clone(),
        target_node_id: edge.target_node_id.clone(),
    };
    ops.push(put_op(key, vector));
    assert(ops_view(ops@) =~= insert_edge_with_vector_plan(*edge, encoded@, source_namespace, vector@));
    ops
}

/// The removals that delete the edge stored under `id`: none where no edge is
/// stored there (it is already gone), else those of `delete_edge_plan` for the
/// edge found, whose source node is in `source_namespace`.
pub fn delete_edge_ops(id: &EdgeId, found: Option<&Edge>, source_namespace: Option<String>) -> (r: Vec<KvOp>)
    ensures
        ops_view(r@) == match found {
            None => Seq::<KvOpView>::empty(),
            Some(edge) => delete_edge_plan(*id, *edge, source_namespace),
        },
{
    let mut ops: Vec<KvOp> = Vec::new();
    match found {
        None => {
            assert(ops_view(ops@) =~= Seq::<KvOpView>::empty());
        },
        Some(edge) => {
            ops.push(remove_op(StorageKey::Edge(id.clone()), true));
            let vector_key = StorageKey::EdgeVector {
                edge_kind: edge.kind.clone(),
                namespace: source_namespace,
                source_node_id: edge.source_node_id.clone(),
                target_node_id: edge.target_node_id.clone(),
            };
            ops.push(remove_op(vector_key, false));
            let forward = StorageKey::EdgesForNode { node_id: edge.source_node_id.clone(), edge_id: id.clone() };
            ops.push(remove_op(forward, false));
            let reverse = StorageKey::EdgesTargetingNode { node_id: edge.target_node_id.clone(), edge_id: id.clone() };
            ops.push(remove_op(reverse, false));
            assert(ops_view(ops@) =~= delete_edge_plan(*id, *edge, source_namespace));
        },
    }
    ops
}

/// The removals that delete a node with its edges: each listed edge leaving or
/// entering it (with its source's namespace), then the node's entry and, where
/// the node was found, its vector.
pub fn delete_node_ops(id: &NodeId, node: Option<&Node>, edges: &Vec<(Edge, Option<String>)>) -> (r: Vec<KvOp>)
    ensures
        ops_view(r@) == delete_node_plan(*id, match node { Some(n) => Some(*n), None => None::<Node> }, edges@),
{
    let mut ops: Vec<KvOp> = Vec::new();
    let mut i: usize = 0;
    assert(edges@.take(0) =~= Seq::<(Edge, Option<String>)>::empty());
    while i < edges.len()
        invariant
            i <= edges@.len(),
            ops_view(ops@) == delete_edges_plan(edges@.take(i as int)),
        decreases edges@.len() - i,
    {
        let (edge, namespace) = &edges[i];
        let ghost before = ops_view(ops@);
        ops.push(remove_op(StorageKey::Edge(edge.id.clone()), true));
        let vector_key = StorageKey::EdgeVector {
            edge_kind: edge.kind.clone(),
            namespace: namespace.clone(),
            source_node_id: edge.source_node_id.clone(),
            target_node_id: edge.target_node_id.clone(),
        };
        ops.push(remove_op(vector_key, false));
        let forward = StorageKey::EdgesForNode { node_id: edge.source_node_id.clone(), edge_id: edge.id.clone() };
        ops.push(remove_op(forward, false));
        let reverse = StorageKey::EdgesTargetingNode { node_id: edge.target_node_id.clone(), edge_id: edge.id.clone() };
        ops.push(remove_op(reverse, false));
        assert(edges@.take(i + 1).drop_last() =~= edges@.take(i as int));
        assert(edges@.take(i + 1).last() == (*edge, *namespace));
        assert(ops_view(ops@) =~= before + delete_edge_plan(edge.id, *edge, *namespace));
        i = i + 1;
    }
    assert(edges@.take(i as int) =~= edges@);
    let ghost before = ops_view(ops@);
    ops.push(remove_op(StorageKey::Node(id.clone()), true));
    match node {
        Some(n) => {
            let key = StorageKey::NodeVector { kind: n.kind.clone(), namespace: n.namespace.clone(), node_id: id.clone() };
            ops.push(remove_op(key, false));
        },
        None => {},
    }
    assert(ops_view(ops@) =~= delete_node_plan(*id, match node { Some(n) => Some(*n), None => None::<Node> }, edges@));
    ops
}

/// The write that maps a name of a kind to a node, given the node identifier's encoding.
pub fn set_name_mapping_ops(kind: &str, name: &str, encoded_node_id: Vec<u8>) -> (r: Vec<KvOp>)
    ensures
        ops_view(r@) == set_name_mapping_plan(kind@, name@, encoded_node_id@),
{
    let key = StorageKey::NameMapping { kind: String::from_str(kind), name: String::from_str(name) };
    let mut ops: Vec<KvOp> = Vec::new();
    ops.push(put_op(key, encoded_node_id));
    assert(ops_view(ops@) =~= set_name_mapping_plan(kind@, name@, encoded_node_id@));
    ops
}

/// The removal of the mapping of a name of a kind.
pub fn delete_name_mapping_ops(kind: &str, name: &str) -> (r: Vec<KvOp>)
    ensures
        ops_view(r@) == delete_name_mapping_plan(kind@, name@),
{
    let key = StorageKey::NameMapping { kind: String::from_str(kind), name: String::from_str(name) };
    let mut ops: Vec<KvOp> = Vec::new();
    ops.push(remove_op(key, true));
    assert(ops_view(ops@) =~= delete_name_mapping_plan(kind@, name@));
    ops
}

/// A stored node is read back under its entry as the encoding it was stored with.
pub proof fn lemma_stored_node_reads_back(store: StoreContents, node: Node, encoded: Seq<u8>)
    ensures
        apply_ops(store, insert_node_plan(node, encoded)) == store.insert(entry(StorageKey::Node(node.id)), encoded),
{
    reveal_with_fuel(apply_ops, 2);
}

/// A node stored with its vector is read back under its entry, and its vector
/// under the entry that the node's kind, namespace and identity name.
pub proof fn lemma_stored_node_vector_reads_back(store: StoreContents, node: Node, encoded: Seq<u8>, vector: Seq<u8>)
    ensures
        ({
            let after = apply_ops(store, insert_node_with_vector_plan(node, encoded, vector));
            &&& after[entry(StorageKey::Node(node.id))] == encoded
            &&& after[entry(node_vector_entry_key(node))] == vector
            &&& after.dom() == store.dom().insert(entry(StorageKey::Node(node.id))).insert(entry(node_vector_entry_key(node)))
        }),
{
    reveal_with_fuel(apply_ops, 3);
    reveal_strlit("nodes");
    reveal_strlit("node_vectors");
    assert(entry(StorageKey::Node(node.id)).0.len() != entry(node_vector_entry_key(node)).0.len());
    assert(apply_ops(store, insert_node_with_vector_plan(node, encoded, vector)).dom()
        =~= store.dom().insert(entry(StorageKey::Node(node.id))).insert(entry(node_vector_entry_key(node))));
}

/// After an edge is stored, its entry holds its encoding, and the forward index
/// of its source and the reverse index of its target each list it, under a key
/// that starts with that node's index prefix and holds the edge's identifier.
pub proof fn lemma_stored_edge_is_indexed(store: StoreContents, edge: Edge, encoded: Seq<u8>)
    ensures
        ({
            let after = apply_ops(store, insert_edge_plan(edge, encoded));
            let forward = entry(StorageKey::EdgesForNode { node_id: edge.source_node_id, edge_id: edge.id });
            let reverse = entry(StorageKey::EdgesTargetingNode { node_id: edge.target_node_id, edge_id: edge.id });
            &&& after[entry(StorageKey::Edge(edge.id))] == encoded
            &&& after.contains_key(forward)
            &&& forward.1 == edges_for_node_prefix_text(edge.source_node_id@) + edge.id@
            &&& decode_utf8(after[forward]) == edge.id@
            &&& after.contains_key(reverse)
            &&& reverse.1 == edges_targeting_node_prefix_text(edge.target_node_id@) + edge.id@
            &&& decode_utf8(after[reverse]) == edge.id@
        }),
{
    reveal_with_fuel(apply_ops, 4);
    reveal_strlit("edges");
    reveal_strlit("edges_for_node");
    reveal_strlit("edges_targeting_node");
    lemma_text_bytes_roundtrip(edge.id@);
    let e = entry(StorageKey::Edge(edge.id));
    let forward = entry(StorageKey::EdgesForNode { node_id: edge.source_node_id, edge_id: edge.id });
    let reverse = entry(StorageKey::EdgesTargetingNode { node_id: edge.target_node_id, edge_id: edge.id });
    assert(e.0.len() != forward.0.len());
    assert(e.0.len() != reverse.0.len());
    assert(forward.0.len() != reverse.0.len());
}

/// Deleting an edge that was stored with its vector, the source's namespace
/// being the same both times, removes every entry that storing it wrote and
/// leaves every other entry as it was before the edge was stored.
pub proof fn lemma_delete_edge_undoes_insert(
    store: StoreContents,
    edge: Edge,
    encoded: Seq<u8>,
    source_namespace: Option<String>,
    vector: Seq<u8>,
)
    ensures
        apply_ops(
            apply_ops(store, insert_edge_with_vector_plan(edge, encoded, source_namespace, vector)),
            delete_edge_plan(edge.id, edge, source_namespace),
        ) == store
            .remove(entry(StorageKey::Edge(edge.id)))
            .remove(entry(edge_vector_entry_key(edge, source_namespace)))
            .remove(entry(StorageKey::EdgesForNode { node_id: edge.source_node_id, edge_id: edge.id }))
            .remove(entry(StorageKey::EdgesTargetingNode { node_id: edge.target_node_id, edge_id: edge.id })),
{
    reveal_with_fuel(apply_ops, 5);
    let after = apply_ops(
        apply_ops(store, insert_edge_with_vector_plan(edge, encoded, source_namespace, vector)),
        delete_edge_plan(edge.id, edge, source_namespace),
    );
    assert(after =~= store
        .remove(entry(StorageKey::Edge(edge.id)))
        .remove(entry(edge_vector_entry_key(edge, source_namespace)))
        .remove(entry(StorageKey::EdgesForNode { node_id: edge.source_node_id, edge_id: edge.id }))
        .remove(entry(StorageKey::EdgesTargetingNode { node_id: edge.target_node_id, edge_id: edge.id })));
}

/// A mapped name reads back as the encoded node identifier it was mapped to,
/// and deleting the mapping removes it; where kinds hold no colon, the mapping
/// of every other (kind, name) pair is untouched by both.
pub proof fn lemma_name_mapping_reads_back(
    store: StoreContents,
    kind: Seq<char>,
    name: Seq<char>,
    encoded_node_id: Seq<u8>,
    other_kind: Seq<char>,
    other_name: Seq<char>,
)
    ensures
        ({
            let mapped = apply_ops(store, set_name_mapping_plan(kind, name, encoded_node_id));
            let deleted = apply_ops(mapped, delete_name_mapping_plan(kind, name));
            &&& stored_mapping(mapped, kind, name) == Some(encoded_node_id)
            &&& stored_mapping(deleted, kind, name) is None
            &&& deleted == store.remove(("names"@, name_mapping_key_text(kind, name)))
            &&& (!has_colon(kind) && !has_colon(other_kind) && (kind, name) != (other_kind, other_name)) ==> {
                &&& stored_mapping(mapped, other_kind, other_name) == stored_mapping(store, other_kind, other_name)
                &&& stored_mapping(deleted, other_kind, other_name) == stored_mapping(store, other_kind, other_name)
            }
        }),
{
    reveal_with_fuel(apply_ops, 2);
    let at = ("names"@, name_mapping_key_text(kind, name));
    let mapped = apply_ops(store, set_name_mapping_plan(kind, name, encoded_node_id));
    assert(apply_ops(mapped, delete_name_mapping_plan(kind, name)) =~= store.remove(at));
    if !has_colon(kind) && !has_colon(other_kind) && (kind, name) != (other_kind, other_name) {
        if name_mapping_key_text(kind, name) == name_mapping_key_text(other_kind, other_name) {
            lemma_name_mapping_keys_injective(kind, name, other_kind, other_name);
        }
    }
}

/// Where every operation succeeds, performing them is applying them, and the
/// store operation succeeds.
pub proof fn lemma_perform_ops_all_succeed(store: StoreContents, ops: Seq<KvOpView>, failed: Seq<bool>)
    requires
        failed.len() == ops.len(),
        forall|i: int| 0 <= i < failed.len() ==> !failed[i],
    ensures
        perform_ops(store, ops, failed) == (apply_ops(store, ops), true),
    decreases ops.len(),
{
    if ops.len() > 0 {
        lemma_perform_ops_all_succeed(apply_op(store, ops[0]), ops.drop_first(), failed.drop_first());
    }
}

/// A store operation fails exactly when one of its operations that stops it on
/// failure (every put, and every required removal) fails.
pub proof fn lemma_perform_ops_fails_exactly_on_fatal_failure(store: StoreContents, ops: Seq<KvOpView>, failed: Seq<bool>)
    requires
        failed.len() == ops.len(),
    ensures
        !perform_ops(store, ops, failed).1 <==> exists|i: int| 0 <= i < ops.len() && failed[i] && #[trigger] stops_on_failure(ops[i]),
    decreases ops.len(),
{
    if ops.len() > 0 {
        let rest = ops.drop_first();
        let rest_failed = failed.drop_first();
        let next = if failed[0] { store } else { apply_op(store, ops[0]) };
        lemma_perform_ops_fails_exactly_on_fatal_failure(next, rest, rest_failed);
        if exists|i: int| 0 <= i < rest.len() && rest_failed[i] && #[trigger] stops_on_failure(rest[i]) {
            let i = choose|i: int| 0 <= i < rest.len() && rest_failed[i] && #[trigger] stops_on_failure(rest[i]);
            assert(ops[i + 1] == rest[i]);
            assert(failed[i + 1] == rest_failed[i]);
            assert(stops_on_failure(ops[i + 1]));
        }
        if exists|i: int| 0 <= i < ops.len() && failed[i] && #[trigger] stops_on_failure(ops[i]) {
            let i = choose|i: int| 0 <= i < ops.len() && failed[i] && #[trigger] stops_on_failure(ops[i]);
            if i > 0 && !(failed[0] && stops_on_failure(ops[0])) {
                assert(rest[i - 1] == ops[i]);
                assert(rest_failed[i - 1] == failed[i]);
                assert(stops_on_failure(rest[i - 1]));
            }
        }
        if failed[0] && stops_on_failure(ops[0]) {
            assert(stops_on_failure(ops[0]));
        }
    }
}

proof fn lemma_edge_plan_entries_distinct(edge: Edge, namespace: Option<String>)
    ensures
        entry(StorageKey::Edge(edge.id)).0.len() == 5,
        entry(edge_vector_entry_key(edge, namespace)).0.len() == 12,
        entry(StorageKey::EdgesForNode { node_id: edge.source_node_id, edge_id: edge.id }).0.len() == 14,
        entry(StorageKey::EdgesTargetingNode { node_id: edge.target_node_id, edge_id: edge.id }).0.len() == 20,
        entry(StorageKey::Edge(edge.id)) == ("edges"@, "edge:"@ + edge.id@),
{
    reveal_strlit("edges");
    reveal_strlit("edge_vectors");
    reveal_strlit("edges_for_node");
    reveal_strlit("edges_targeting_node");
}

/// After an edge is stored, reading it gives it back (its encoding decoding to
/// it), and reading the forward index of its source and the reverse index of
/// its target returns it; where the first write fails, nothing is written and
/// the store operation fails.
pub proof fn lemma_inserted_edge_reads_back(
    store: StoreContents,
    edge: Edge,
    encoded: Seq<u8>,
    decode: spec_fn(Seq<u8>) -> Option<Edge>,
    failed: Seq<bool>,
)
    requires
        decode(encoded) == Some(edge),
    ensures
        ({
            let after = apply_ops(store, insert_edge_plan(edge, encoded));
            &&& stored_edge(after, edge.id, decode) == Some(edge)
            &&& found_edge_ids(after, "edges_for_node"@, edges_for_node_prefix_text(edge.source_node_id@), decode).contains(edge.id@)
            &&& found_edge_ids(after, "edges_targeting_node"@, edges_targeting_node_prefix_text(edge.target_node_id@), decode).contains(edge.id@)
        }),
        failed.len() > 0 && failed[0] ==> perform_ops(store, insert_edge_plan(edge, encoded), failed) == (store, false),
{
    reveal_with_fuel(apply_ops, 4);
    reveal_with_fuel(perform_ops, 2);
    let after = apply_ops(store, insert_edge_plan(edge, encoded));
    lemma_stored_edge_is_indexed(store, edge, encoded);
    lemma_edge_plan_entries_distinct(edge, None);
    lemma_text_bytes_roundtrip(edge.id@);
    reveal_strlit("edges_for_node");
    reveal_strlit("edges_targeting_node");
    let fkey = edges_for_node_prefix_text(edge.source_node_id@) + edge.id@;
    let rkey = edges_targeting_node_prefix_text(edge.target_node_id@) + edge.id@;
    let fp = edges_for_node_prefix_text(edge.source_node_id@);
    let rp = edges_targeting_node_prefix_text(edge.target_node_id@);
    assert(fp =~= fkey.subrange(0, fp.len() as int));
    assert(rp =~= rkey.subrange(0, rp.len() as int));
    assert(index_value_id(after[("edges_for_node"@, fkey)]) == edge.id@);
    assert(index_value_id(after[("edges_targeting_node"@, rkey)]) == edge.id@);
    assert(found_edge_ids(after, "edges_for_node"@, fp, decode).contains(edge.id@));
    assert(found_edge_ids(after, "edges_targeting_node"@, rp, decode).contains(edge.id@));
}

proof fn lemma_target_keys_differ(ta: Seq<char>, tb: Seq<char>, ida: Seq<char>, idb: Seq<char>, head: Seq<char>)
    requires
        ta != tb,
        ida == head + ta,
        idb == head + tb,
    ensures
        edges_targeting_node_prefix_text(ta) + ida != edges_targeting_node_prefix_text(tb) + idb,
{
    let ka = edges_targeting_node_prefix_text(ta) + ida;
    let kb = edges_targeting_node_prefix_text(tb) + idb;
    let e = "etn:"@;
    assert(ka =~= e + ta + ":"@ + head + ta);
    assert(kb =~= e + tb + ":"@ + head + tb);
    if ka == kb {
        assert(ta.len() == tb.len());
        assert forall|i: int| 0 <= i < ta.len() implies ta[i] == tb[i] by {
            assert(ka[e.len() + i] == ta[i]);
            assert(kb[e.len() + i] == tb[i]);
        }
        assert(ta =~= tb);
    }
}

/// Two edges of one kind from one source to different targets, both stored:
/// each reads back as itself, both are listed in the source's forward index,
/// and each target's reverse index returns its own edge.
pub proof fn lemma_edges_to_two_targets_both_read_back(
    store: StoreContents,
    a: Edge,
    encoded_a: Seq<u8>,
    b: Edge,
    encoded_b: Seq<u8>,
    decode: spec_fn(Seq<u8>) -> Option<Edge>,
)
    requires
        a.source_node_id@ == b.source_node_id@,
        a.kind@ == b.kind@,
        a.target_node_id@ != b.target_node_id@,
        a.id@ == edge_key_id_text(a.source_node_id@, a.kind@, a.target_node_id@),
        b.id@ == edge_key_id_text(b.source_node_id@, b.kind@, b.target_node_id@),
        decode(encoded_a) == Some(a),
        decode(encoded_b) == Some(b),
    ensures
        ({
            let after = apply_ops(apply_ops(store, insert_edge_plan(a, encoded_a)), insert_edge_plan(b, encoded_b));
            &&& stored_edge(after, a.id, decode) == Some(a)
            &&& stored_edge(after, b.id, decode) == Some(b)
            &&& found_edge_ids(after, "edges_for_node"@, edges_for_node_prefix_text(a.source_node_id@), decode).contains(a.id@)
            &&& found_edge_ids(after, "edges_for_node"@, edges_for_node_prefix_text(a.source_node_id@), decode).contains(b.id@)
            &&& found_edge_ids(after, "edges_targeting_node"@, edges_targeting_node_prefix_text(a.target_node_id@), decode).contains(a.id@)
            &&& found_edge_ids(after, "edges_targeting_node"@, edges_targeting_node_prefix_text(b.target_node_id@), decode).contains(b.id@)
        }),
{
    reveal_with_fuel(apply_ops, 4);
    let first = apply_ops(store, insert_edge_plan(a, encoded_a));
    let after = apply_ops(first, insert_edge_plan(b, encoded_b));
    lemma_inserted_edge_reads_back(store, a, encoded_a, decode, seq![]);
    lemma_inserted_edge_reads_back(first, b, encoded_b, decode, seq![]);
    lemma_edge_plan_entries_distinct(a, None);
    lemma_edge_plan_entries_distinct(b, None);
    lemma_edge_ids_differ_by_target(a.source_node_id@, a.kind@, a.target_node_id@, b.target_node_id@);
    assert(a.id@ != b.id@);
    lemma_record_keys_injective(a.id@, b.id@);
    let head = a.source_node_id@ + ":"@ + a.kind@ + ":"@;
    assert(a.id@ =~= head + a.target_node_id@);
    assert(b.id@ =~= head + b.target_node_id@);
    lemma_target_keys_differ(a.target_node_id@, b.target_node_id@, a.id@, b.id@, head);
    let fp = edges_for_node_prefix_text(a.source_node_id@);
    if fp + a.id@ == fp + b.id@ {
        assert(a.id@ =~= (fp + a.id@).subrange(fp.len() as int, (fp + a.id@).len() as int));
        assert(b.id@ =~= (fp + b.id@).subrange(fp.len() as int, (fp + b.id@).len() as int));
    }
    let ra = entry(StorageKey::Edge(a.id));
    let rb = entry(StorageKey::Edge(b.id));
    let fa = entry(StorageKey::EdgesForNode { node_id: a.source_node_id, edge_id: a.id });
    let fb = entry(StorageKey::EdgesForNode { node_id: b.source_node_id, edge_id: b.id });
    let ta = entry(StorageKey::EdgesTargetingNode { node_id: a.target_node_id, edge_id: a.id });
    let tb = entry(StorageKey::EdgesTargetingNode { node_id: b.target_node_id, edge_id: b.id });
    assert(ra != rb && ra != fb && ra != tb);
    assert(fa != rb && fa != fb && fa != tb);
    assert(ta != rb && ta != fb && ta != tb);
    assert(after[ra] == first[ra]);
    assert(after[fa] == first[fa]);
    assert(after[ta] == first[ta]);
    lemma_text_bytes_roundtrip(a.id@);
    let fpa = edges_for_node_prefix_text(a.source_node_id@);
    let tpa = edges_targeting_node_prefix_text(a.target_node_id@);
    assert(fpa =~= fa.1.subrange(0, fpa.len() as int));
    assert(tpa =~= ta.1.subrange(0, tpa.len() as int));
    assert(index_value_id(after[fa]) == a.id@);
    assert(index_value_id(after[ta]) == a.id@);
    assert(after.contains_key(("edges"@, "edge:"@ + a.id@)));
    assert(found_edge_ids(after, "edges_for_node"@, fpa, decode).contains(a.id@));
    assert(found_edge_ids(after, "edges_targeting_node"@, tpa, decode).contains(a.id@));
}

/// Deleting an edge that was stored with its vector (its source's namespace
/// being the same both times): reading it gives nothing, its vector is gone
/// (no search meets it), neither index of its source or target returns it, and
/// deleting it again changes nothing.
pub proof fn lemma_deleted_edge_is_gone(
    store: StoreContents,
    edge: Edge,
    encoded: Seq<u8>,
    source_namespace: Option<String>,
    vector: Seq<u8>,
    decode: spec_fn(Seq<u8>) -> Option<Edge>,
)
    requires
        decode(encoded) == Some(edge),
    ensures
        ({
            let inserted = apply_ops(store, insert_edge_with_vector_plan(edge, encoded, source_namespace, vector));
            let deleted = delete_edge_model(inserted, edge.id, decode, source_namespace);
            &&& stored_edge(deleted, edge.id, decode) is None
            &&& stored_edge_vector(deleted, edge.id, decode, source_namespace) is None
            &&& !deleted.contains_key(entry(edge_vector_entry_key(edge, source_namespace)))
            &&& !found_edge_ids(deleted, "edges_for_node"@, edges_for_node_prefix_text(edge.source_node_id@), decode).contains(edge.id@)
            &&& !found_edge_ids(deleted, "edges_targeting_node"@, edges_targeting_node_prefix_text(edge.target_node_id@), decode).contains(edge.id@)
            &&& delete_edge_model(deleted, edge.id, decode, source_namespace) == deleted
        }),
{
    reveal_with_fuel(apply_ops, 5);
    lemma_edge_plan_entries_distinct(edge, source_namespace);
    let inserted = apply_ops(store, insert_edge_with_vector_plan(edge, encoded, source_namespace, vector));
    assert(inserted[entry(StorageKey::Edge(edge.id))] == encoded);
    assert(stored_edge(inserted, edge.id, decode) == Some(edge));
    lemma_delete_edge_undoes_insert(store, edge, encoded, source_namespace, vector);
    let deleted = delete_edge_model(inserted, edge.id, decode, source_namespace);
    assert(!deleted.contains_key(entry(StorageKey::Edge(edge.id))));
    assert(!deleted.contains_key(("edges"@, "edge:"@ + edge.id@)));
}

/// An edge stored with its vector gives that vector back when its vector is
/// read (its source's namespace being the same both times); reading the vector
/// of an identifier under which no edge is stored gives nothing.
pub proof fn lemma_edge_vector_reads_back(
    store: StoreContents,
    edge: Edge,
    encoded: Seq<u8>,
    source_namespace: Option<String>,
    vector: Seq<u8>,
    decode: spec_fn(Seq<u8>) -> Option<Edge>,
    other: EdgeId,
)
    requires
        decode(encoded) == Some(edge),
    ensures
        stored_edge_vector(
            apply_ops(store, insert_edge_with_vector_plan(edge, encoded, source_namespace, vector)),
            edge.id,
            decode,
            source_namespace,
        ) == Some(vector),
        !store.contains_key(entry(StorageKey::Edge(other))) ==> stored_edge_vector(store, other, decode, source_namespace) is None,
{
    reveal_with_fuel(apply_ops, 5);
    lemma_edge_plan_entries_distinct(edge, source_namespace);
    let inserted = apply_ops(store, insert_edge_with_vector_plan(edge, encoded, source_namespace, vector));
    assert(inserted[entry(StorageKey::Edge(edge.id))] == encoded);
    assert(stored_edge(inserted, edge.id, decode) == Some(edge));
}

/// A node stored with its vector reads back as itself (its encoding decoding to
/// it), and reading its vector gives that vector back; reading the vector of an
/// identifier under which no node is stored gives nothing.
pub proof fn lemma_node_vector_read_after_insert(
    store: StoreContents,
    node: Node,
    encoded: Seq<u8>,
    vector: Seq<u8>,
    decode: spec_fn(Seq<u8>) -> Option<Node>,
    other: NodeId,
)
    requires
        decode(encoded) == Some(node),
    ensures
        stored_node(apply_ops(store, insert_node_with_vector_plan(node, encoded, vector)), node.id, decode) == Some(node),
        stored_node_vector(apply_ops(store, insert_node_with_vector_plan(node, encoded, vector)), node.id, decode) == Some(vector),
        !store.contains_key(entry(StorageKey::Node(other))) ==> stored_node_vector(store, other, decode) is None,
{
    lemma_stored_node_vector_reads_back(store, node, encoded, vector);
    let after = apply_ops(store, insert_node_with_vector_plan(node, encoded, vector));
    assert(StorageKey::NodeVector { kind: node.kind, namespace: node.namespace, node_id: node.id } == node_vector_entry_key(node));
}

/// Performing operations one list after another is performing the joined list.
pub proof fn lemma_apply_ops_concat(store: StoreContents, first: Seq<KvOpView>, second: Seq<KvOpView>)
    ensures
        apply_ops(store, first + second) == apply_ops(apply_ops(store, first), second),
    decreases first.len(),
{
    if first.len() > 0 {
        assert((first + second).drop_first() =~= first.drop_first() + second);
        assert((first + second)[0] == first[0]);
        lemma_apply_ops_concat(apply_op(store, first[0]), first.drop_first(), second);
    } else {
        assert(first + second =~= second);
    }
}

proof fn lemma_delete_edges_removes_entries(store: StoreContents, edges: Seq<(Edge, Option<String>)>)
    ensures
        apply_ops(store, delete_edges_plan(edges)) == store.remove_keys(edges_entries(edges)),
    decreases edges.len(),
{
    if edges.len() == 0 {
        assert(store.remove_keys(Set::empty()) =~= store);
    } else {
        let prev = edges.drop_last();
        let (e, ns) = edges.last();
        lemma_delete_edges_removes_entries(store, prev);
        lemma_apply_ops_concat(store, delete_edges_plan(prev), delete_edge_plan(e.id, e, ns));
        reveal_with_fuel(apply_ops, 5);
        let mid = store.remove_keys(edges_entries(prev));
        assert(apply_ops(mid, delete_edge_plan(e.id, e, ns)) =~= mid.remove_keys(edge_entries(e, ns)));
        assert(mid.remove_keys(edge_entries(e, ns)) =~= store.remove_keys(edges_entries(edges)));
    }
}

/// Deleting a node with its edges removes exactly the node's entry, its vector
/// (where the node was found) and the record, vector and index entries of every
/// listed edge; every other entry is as it was. No listed edge can be read or
/// returned by any index afterwards.
pub proof fn lemma_node_cascade_removes(
    store: StoreContents,
    id: NodeId,
    node: Option<Node>,
    edges: Seq<(Edge, Option<String>)>,
    decode: spec_fn(Seq<u8>) -> Option<Edge>,
)
    ensures
        apply_ops(store, delete_node_plan(id, node, edges)) == store.remove_keys(node_cascade_entries(id, node, edges)),
        !apply_ops(store, delete_node_plan(id, node, edges)).contains_key(entry(StorageKey::Node(id))),
        node matches Some(n) ==> !apply_ops(store, delete_node_plan(id, node, edges)).contains_key(
            entry(StorageKey::NodeVector { kind: n.kind, namespace: n.namespace, node_id: id }),
        ),
        forall|i: int| 0 <= i < edges.len() ==> edge_entries(edges[i].0, edges[i].1).subset_of(node_cascade_entries(id, node, edges)),
        forall|i: int, partition: Seq<char>, prefix: Seq<char>| 0 <= i < edges.len()
            ==> !#[trigger] found_edge_ids(apply_ops(store, delete_node_plan(id, node, edges)), partition, prefix, decode).contains(edges[i].0.id@),
        forall|i: int| 0 <= i < edges.len()
            ==> stored_edge(apply_ops(store, delete_node_plan(id, node, edges)), #[trigger] edges[i].0.id, decode) is None,
{
    let tail = match node {
        Some(n) => seq![
            remove(StorageKey::Node(id), true),
            remove(StorageKey::NodeVector { kind: n.kind, namespace: n.namespace, node_id: id }, false),
        ],
        None => seq![remove(StorageKey::Node(id), true)],
    };
    let tail_entries = match node {
        Some(n) => set![
            entry(StorageKey::Node(id)),
            entry(StorageKey::NodeVector { kind: n.kind, namespace: n.namespace, node_id: id }),
        ],
        None => set![entry(StorageKey::Node(id))],
    };
    lemma_delete_edges_removes_entries(store, edges);
    lemma_apply_ops_concat(store, delete_edges_plan(edges), tail);
    reveal_with_fuel(apply_ops, 3);
    let mid = store.remove_keys(edges_entries(edges));
    assert(apply_ops(mid, tail) =~= mid.remove_keys(tail_entries));
    let after = apply_ops(store, delete_node_plan(id, node, edges));
    assert(after =~= store.remove_keys(node_cascade_entries(id, node, edges)));
    assert forall|i: int| 0 <= i < edges.len() implies edge_entries(edges[i].0, edges[i].1).subset_of(
        node_cascade_entries(id, node, edges),
    ) by {
        lemma_edges_entries_contain(edges, i);
    }
    assert forall|i: int, partition: Seq<char>, prefix: Seq<char>| 0 <= i < edges.len()
        implies !#[trigger] found_edge_ids(after, partition, prefix, decode).contains(edges[i].0.id@) by {
        lemma_edges_entries_contain(edges, i);
        lemma_edge_plan_entries_distinct(edges[i].0, edges[i].1);
        assert(edge_entries(edges[i].0, edges[i].1).contains(entry(StorageKey::Edge(edges[i].0.id))));
        assert(!after.contains_key(("edges"@, "edge:"@ + edges[i].0.id@)));
    }
    assert forall|i: int| 0 <= i < edges.len() implies stored_edge(after, #[trigger] edges[i].0.id, decode) is None by {
        lemma_edges_entries_contain(edges, i);
        assert(edge_entries(edges[i].0, edges[i].1).contains(entry(StorageKey::Edge(edges[i].0.id))));
    }
}

proof fn lemma_edges_entries_contain(edges: Seq<(Edge, Option<String>)>, i: int)
    requires
        0 <= i < edges.len(),
    ensures
        edge_entries(edges[i].0, edges[i].1).subset_of(edges_entries(edges)),
    decreases edges.len(),
{
    if i < edges.len() - 1 {
        lemma_edges_entries_contain(edges.drop_last(), i);
        assert(edges.drop_last()[i] == edges[i]);
    }
}

} // verus!
