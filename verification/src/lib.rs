//! A vector graph database: nodes, edges, their storage keys, and the
//! decisions that the store makes on top of a key-value backend.

pub mod config;
pub mod edge;
pub mod embed;
pub mod error;
mod hit_order;
pub mod ids;
pub mod keys;
pub mod node;
pub mod plan;
pub mod search;
pub mod service;
pub mod text;

pub use config::{GraphStoreServiceImpl, RemoteGraphStoreConfig};
pub use edge::Edge;
pub use embed::{
    EnrichmentResult, Enricher, InputTensorNames, MatryoshkaMode, Model2VecEmbedderSettings,
    OnnxEmbedderSettings, PoolingStrategy, PrefixMode,
};
pub use error::{VecGraphError, VecGraphResult};
pub use ids::{EdgeId, NodeId};
pub use keys::{StorageKey, VectorScanQuery};
pub use node::Node;
pub use plan::KvOp;
pub use search::{ScoredHit, SearchKind, TopK};
