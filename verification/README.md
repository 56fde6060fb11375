# vecgraph

A vector graph database: nodes and edges, each optionally with an embedding,
kept in a key-value backend and searchable by cosine distance.

- `src/` is the verified library: identifiers, nodes and edges; the storage
  keys and scan prefixes; the list of backend writes that every store
  operation makes, with proofs that reads give back what was written and that
  deleting an edge removes exactly what storing it wrote; the bounded
  selection of the best search hits and the stable ordering of hits; name
  exclusion; the decisions of the embedders; and the status of server replies.
- `app/` holds what works with floating-point numbers or performs I/O: the
  vector math, the store over a `kvwrap` backend, the serde forms of nodes and
  edges, and the Model2Vec and ONNX embedders.
- `tests/` exercises the library on concrete values.

The gRPC server, its binary, the remote client and the protobuf conversions
are not part of this crate: they rest on types that `tonic`/`prost` generate
at build time from `.proto` definitions, and those definitions are not
available. What of them is not transport stands in the library: the client's
settings, the service shell and the status and message of each reply.
