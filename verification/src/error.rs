//! The error type of the library.

use vstd::prelude::*;
use crate::text::{decimal, decimal_string};

verus! {

/// What went wrong in a graph operation.
#[derive(Debug)]
pub enum VecGraphError {
    DimensionMismatch { expected: usize, got: usize },
    EmbedderError(String),
    EmptyQuery,
    StorageError(String),
    SerializationError(String),
    TokenizerError(String),
    Other(String),
}

/// The result of a graph operation.
pub type VecGraphResult<T> = Result<T, VecGraphError>;

impl VecGraphError {
    /// The human-readable text of the error, as the error is displayed.
    pub open spec fn message_text(&self) -> Seq<char> {
        match self {
            VecGraphError::DimensionMismatch { expected, got } =>
                "Dimension mismatch: expected "@ + decimal(*expected as nat) + ", got "@ + decimal(*got as nat),
            VecGraphError::EmbedderError(msg) => "Embedder error: "@ + msg@,
            VecGraphError::TokenizerError(msg) => "Tokenizer error: "@ + msg@,
            VecGraphError::Other(msg) => "Error: "@ + msg@,
            VecGraphError::EmptyQuery => "Query is empty"@,
            VecGraphError::StorageError(msg) => "Storage error: "@ + msg@,
            VecGraphError::SerializationError(msg) => "Serialization error: "@ + msg@,
        }
    }

    /// Renders the error as text; this is what displaying the error shows.
    pub fn message(&self) -> (r: String)
        ensures
            r@ == self.message_text(),
    {
        match self {
            VecGraphError::DimensionMismatch { expected, got } => {
                let mut s = String::from_str("Dimension mismatch: expected ");
                let e = decimal_string(*expected);
                s.append(e.as_str());
                s.append(", got ");
                let g = decimal_string(*got);
                s.append(g.as_str());
                s
            },
            VecGraphError::EmbedderError(msg) => {
                let mut s = String::from_str("Embedder error: ");
                s.append(msg.as_str());
                s
            },
            VecGraphError::TokenizerError(msg) => {
                let mut s = String::from_str("Tokenizer error: ");
                s.append(msg.as_str());
                s
            },
            VecGraphError::Other(msg) => {
                let mut s = String::from_str("Error: ");
                s.append(msg.as_str());
                s
            },
            VecGraphError::EmptyQuery => String::from_str("Query is empty"),
            VecGraphError::StorageError(msg) => {
                let mut s = String::from_str("Storage error: ");
                s.append(msg.as_str());
                s
            },
            VecGraphError::SerializationError(msg) => {
                let mut s = String::from_str("Serialization error: ");
                s.append(msg.as_str());
                s
            },
        }
    }
}

} // verus!
