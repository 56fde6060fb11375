//! Identifiers of nodes and edges.

use vstd::prelude::*;

verus! {

/// Identifier of a node.
#[derive(Debug, Hash)]
pub struct NodeId(pub String);

impl View for NodeId {
    type V = Seq<char>;

    open spec fn view(&self) -> Seq<char> {
        self.0@
    }
}

impl NodeId {
    /// Wraps the given text as a node identifier.
    pub fn new(id: String) -> (r: Self)
        ensures
            r@ == id@,
    {
        NodeId(id)
    }

    /// The identifier's text.
    pub fn as_str(&self) -> (r: &str)
        ensures
            r@ == self@,
    {
        self.0.as_str()
    }
}

impl Clone for NodeId {
    fn clone(&self) -> (r: Self)
        ensures
            r == *self,
    {
        NodeId(self.0.clone())
    }
}

impl PartialEq for NodeId {
    fn eq(&self, other: &Self) -> (r: bool) {
        self.0 == other.0
    }
}

impl vstd::std_specs::cmp::PartialEqSpecImpl for NodeId {
    open spec fn obeys_eq_spec() -> bool {
        true
    }

    open spec fn eq_spec(&self, other: &Self) -> bool {
        self@ == other@
    }
}

impl Eq for NodeId {}

impl From<String> for NodeId {
    fn from(id: String) -> (r: Self) {
        NodeId(id)
    }
}

impl vstd::std_specs::convert::FromSpecImpl<String> for NodeId {
    open spec fn obeys_from_spec() -> bool {
        true
    }

    open spec fn from_spec(id: String) -> Self {
        NodeId(id)
    }
}

/// Identifier of an edge.
#[derive(Debug, Hash)]
pub struct EdgeId(pub String);

impl View for EdgeId {
    type V = Seq<char>;

    open spec fn view(&self) -> Seq<char> {
        self.0@
    }
}

/// The identifier that an edge of `edge_kind` leaving `node_id` gets: `{node_id}:{edge_kind}`.
pub open spec fn edge_id_text(node_id: Seq<char>, edge_kind: Seq<char>) -> Seq<char> {
    node_id + ":"@ + edge_kind
}

impl EdgeId {
    /// Wraps the given text as an edge identifier.
    pub fn new(id: String) -> (r: Self)
        ensures
            r@ == id@,
    {
        EdgeId(id)
    }

    /// The identifier of the edge of `edge_kind` that leaves `node_id`.
    pub fn from_node_and_kind(node_id: &NodeId, edge_kind: &str) -> (r: Self)
        ensures
            r@ == edge_id_text(node_id@, edge_kind@),
    {
        let mut s = String::from_str(node_id.as_str());
        s.append(":");
        s.append(edge_kind);
        EdgeId(s)
    }

    /// The identifier's text.
    pub fn as_str(&self) -> (r: &str)
        ensures
            r@ == self@,
    {
        self.0.as_str()
    }
}

impl Clone for EdgeId {
    fn clone(&self) -> (r: Self)
        ensures
            r == *self,
    {
        EdgeId(self.0.clone())
    }
}

impl PartialEq for EdgeId {
    fn eq(&self, other: &Self) -> (r: bool) {
        self.0 == other.0
    }
}

impl vstd::std_specs::cmp::PartialEqSpecImpl for EdgeId {
    open spec fn obeys_eq_spec() -> bool {
        true
    }

    open spec fn eq_spec(&self, other: &Self) -> bool {
        self@ == other@
    }
}

impl Eq for EdgeId {}

impl From<String> for EdgeId {
    fn from(id: String) -> (r: Self) {
        EdgeId(id)
    }
}

impl vstd::std_specs::convert::FromSpecImpl<String> for EdgeId {
    open spec fn obeys_from_spec() -> bool {
        true
    }

    open spec fn from_spec(id: String) -> Self {
        EdgeId(id)
    }
}

} // verus!
