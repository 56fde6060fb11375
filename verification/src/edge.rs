//! Edges of the graph.

use vstd::prelude::*;
use crate::ids::{EdgeId, NodeId};

verus! {

/// A directed edge from a source node to a target node.
#[derive(Debug)]
pub struct Edge {
    pub id: EdgeId,
    pub source_node_id: NodeId,
    pub target_node_id: NodeId,
    pub kind: String,
    pub content: String,
    pub metadata: Option<serde_json::Value>,
}

/// The identifier of an edge: `{source}:{kind}:{target}`, so that edges of one
/// kind from one source to different targets are different edges.
pub open spec fn edge_key_id_text(source: Seq<char>, kind: Seq<char>, target: Seq<char>) -> Seq<char> {
    source + ":"@ + kind + ":"@ + target
}

/// Edges of one kind from one source get different identifiers for different targets.
pub proof fn lemma_edge_ids_differ_by_target(source: Seq<char>, kind: Seq<char>, target: Seq<char>, other_target: Seq<char>)
    requires
        target != other_target,
    ensures
        edge_key_id_text(source, kind, target) != edge_key_id_text(source, kind, other_target),
{
    let head = source + ":"@ + kind + ":"@;
    assert(edge_key_id_text(source, kind, target) =~= head + target);
    assert(edge_key_id_text(source, kind, other_target) =~= head + other_target);
    if head + target == head + other_target {
        assert(target =~= (head + target).subrange(head.len() as int, (head + target).len() as int));
        assert(other_target =~= (head + other_target).subrange(head.len() as int, (head + other_target).len() as int));
    }
}

/// The identifier of an edge made with a suffix: `{source}:{kind}:{suffix}`.
pub open spec fn suffixed_edge_id_text(source: Seq<char>, kind: Seq<char>, suffix: Seq<char>) -> Seq<char> {
    source + ":"@ + kind + ":"@ + suffix
}

impl Edge {
    /// The edge of `kind` from `source_node_id` to `target_node_id`, without metadata.
    /// Its identifier is made from the source, the kind and the target.
    pub fn new(source_node_id: NodeId, target_node_id: NodeId, kind: String, content: String) -> (r: Self)
        ensures
            r.id@ == edge_key_id_text(source_node_id@, kind@, target_node_id@),
            r.source_node_id == source_node_id,
            r.target_node_id == target_node_id,
            r.kind == kind,
            r.content == content,
            r.metadata.is_none(),
    {
        let mut text = String::from_str(source_node_id.as_str());
        text.append(":");
        text.append(kind.as_str());
        text.append(":");
        text.append(target_node_id.as_str());
        Edge { id: EdgeId::new(text), source_node_id, target_node_id, kind, content, metadata: None }
    }

    /// Like `new`, with `suffix` (the displayed form of a value) appended to the
    /// identifier, so that several edges of one kind can leave one node.
    pub fn with_suffix(
        source_node_id: NodeId,
        target_node_id: NodeId,
        kind: String,
        suffix: &str,
        content: String,
    ) -> (r: Self)
        ensures
            r.id@ == suffixed_edge_id_text(source_node_id@, kind@, suffix@),
            r.source_node_id == source_node_id,
            r.target_node_id == target_node_id,
            r.kind == kind,
            r.content == content,
            r.metadata.is_none(),
    {
        let mut text = String::from_str(source_node_id.as_str());
        text.append(":");
        text.append(kind.as_str());
        text.append(":");
        text.append(suffix);
        Edge { id: EdgeId::new(text), source_node_id, target_node_id, kind, content, metadata: None }
    }

    /// The same edge, carrying `metadata`.
    pub fn with_metadata(self, metadata: serde_json::Value) -> (r: Self)
        ensures
            r == (Edge { metadata: Some(metadata), ..self }),
    {
        let mut edge = self;
        edge.metadata = Some(metadata);
        edge
    }
}

impl Clone for Edge {
    fn clone(&self) -> (r: Self)
        ensures
            r == *self,
    {
        Edge {
            id: self.id.clone(),
            source_node_id: self.source_node_id.clone(),
            target_node_id: self.target_node_id.clone(),
            kind: self.kind.clone(),
            content: self.content.clone(),
            metadata: self.metadata.clone(),
        }
    }
}

} // verus!
