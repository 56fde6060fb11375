//! How the server answers a request from the outcome of a store operation:
//! which status a failure gets and what its message says.

use vstd::prelude::*;
use crate::error::VecGraphError;

verus! {

/// The status of a failed request.
#[derive(Debug, Clone, Copy, PartialEq, Eq, Structural)]
pub enum ReplyCode {
    /// The request lacked data or held data that could not be read.
    InvalidArgument,
    /// What the request asked for is not stored.
    NotFound,
    /// The store failed.
    Internal,
}

/// A failed request: its status and message.
#[derive(Debug)]
pub struct ServiceFailure {
    pub code: ReplyCode,
    pub message: String,
}

/// The failure of a request whose `subject` data is missing: "{subject} data is missing".
pub fn missing_data(subject: &str) -> (r: ServiceFailure)
    ensures
        r.code == ReplyCode::InvalidArgument,
        r.message@ == subject@ + " data is missing"@,
{
    let mut message = String::from_str(subject);
    message.append(" data is missing");
    ServiceFailure { code: ReplyCode::InvalidArgument, message }
}

/// The failure of a request whose `subject` data could not be read:
/// "Invalid {subject} data: {error}".
pub fn invalid_data(subject: &str, error: &VecGraphError) -> (r: ServiceFailure)
    ensures
        r.code == ReplyCode::InvalidArgument,
        r.message@ == "Invalid "@ + subject@ + " data: "@ + error.message_text(),
{
    let mut message = String::from_str("Invalid ");
    message.append(subject);
    message.append(" data: ");
    let text = error.message();
    message.append(text.as_str());
    ServiceFailure { code: ReplyCode::InvalidArgument, message }
}

/// The failure of a request whose store operation failed: "Failed to {action}: {error}".
pub fn store_failure(action: &str, error: &VecGraphError) -> (r: ServiceFailure)
    ensures
        r.code == ReplyCode::Internal,
        r.message@ == "Failed to "@ + action@ + ": "@ + error.message_text(),
{
    let mut message = String::from_str("Failed to ");
    message.append(action);
    message.append(": ");
    let text = error.message();
    message.append(text.as_str());
    ServiceFailure { code: ReplyCode::Internal, message }
}

/// The answer to a request that acknowledges a store operation.
pub fn acknowledge(outcome: Result<(), VecGraphError>, action: &str) -> (r: Result<(), ServiceFailure>)
    ensures
        outcome is Ok <==> r is Ok,
        outcome matches Err(e) ==> (r matches Err(f) && f.code == ReplyCode::Internal
            && f.message@ == "Failed to "@ + action@ + ": "@ + e.message_text()),
{
    match outcome {
        Ok(()) => Ok(()),
        Err(e) => Err(store_failure(action, &e)),
    }
}

/// The answer to a lookup: what was found; "{subject} not found" where nothing
/// was; the store's failure otherwise.
pub fn lookup_reply<T>(found: Result<Option<T>, VecGraphError>, subject: &str, action: &str) -> (r: Result<T, ServiceFailure>)
    ensures
        found matches Ok(Some(v)) ==> r == Ok::<T, ServiceFailure>(v),
        found matches Ok(None) ==> (r matches Err(f) && f.code == ReplyCode::NotFound
            && f.message@ == subject@ + " not found"@),
        found matches Err(e) ==> (r matches Err(f) && f.code == ReplyCode::Internal
            && f.message@ == "Failed to "@ + action@ + ": "@ + e.message_text()),
{
    match found {
        Ok(Some(v)) => Ok(v),
        Ok(None) => {
            let mut message = String::from_str(subject);
            message.append(" not found");
            Err(ServiceFailure { code: ReplyCode::NotFound, message })
        },
        Err(e) => Err(store_failure(action, &e)),
    }
}

} // verus!
