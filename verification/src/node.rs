//! Nodes of the graph.

use vstd::prelude::*;
use crate::ids::NodeId;

verus! {

/// A JSON value as the `serde_json` crate holds it; carried through unread.
#[verifier::external_type_specification]
#[verifier::external_body]
pub struct ExJsonValue(serde_json::Value);

/// `serde_json::Value::clone`, which the crate derives: the copy holds the
/// same JSON value as the value it was made from.
pub assume_specification[ <serde_json::Value as Clone>::clone ](v: &serde_json::Value) -> (r: serde_json::Value)
    ensures
        r == *v,
;

/// A node of the graph.
#[derive(Debug)]
pub struct Node {
    pub id: NodeId,
    pub kind: String,
    pub namespace: Option<String>,
    pub name: String,
    pub payload: serde_json::Value,
}

impl Node {
    /// A node with the given identity, kind, name and payload, in no namespace.
    pub fn new(id: NodeId, kind: String, name: String, payload: serde_json::Value) -> (r: Self)
        ensures
            r.id == id,
            r.kind == kind,
            r.name == name,
            r.namespace.is_none(),
            r.payload == payload,
    {
        Node { id, kind, namespace: None, name, payload }
    }

    /// The same node, placed in `namespace`.
    pub fn with_namespace(self, namespace: String) -> (r: Self)
        ensures
            r == (Node { namespace: Some(namespace), ..self }),
    {
        let mut node = self;
        node.namespace = Some(namespace);
        node
    }
}

impl Clone for Node {
    fn clone(&self) -> (r: Self)
        ensures
            r == *self,
    {
        Node {
            id: self.id.clone(),
            kind: self.kind.clone(),
            namespace: self.namespace.clone(),
            name: self.name.clone(),
            payload: self.payload.clone(),
        }
    }
}

} // verus!
