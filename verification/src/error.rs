//! Error and outcome types of the document store and the audit log service.

use vstd::prelude::*;

verus! {

/// Why a document-store operation failed. Every store operation may fail
/// this way; none of these is fatal to the caller.
#[derive(Clone, Copy, Debug, PartialEq, Eq, Structural)]
pub enum StoreError {
    /// The connection to the store was lost.
    ConnectionLost,
    /// The operation did not complete in time.
    Timeout,
    /// A document was malformed.
    Serialization,
}

/// Acknowledgement of a successful insert.
#[derive(Clone, Copy, Debug, PartialEq, Eq, Structural)]
pub struct Ack {}

/// An error surfaced by the audit log service: every store failure is
/// wrapped and handed to the caller, never retried silently.
#[derive(Clone, Copy, Debug, PartialEq, Eq, Structural)]
pub enum AuditError {
    /// The underlying store rejected the operation.
    PersistenceFailed(StoreError),
}

impl AuditError {
    /// A short description, for the caller's diagnostics.
    pub fn describe(&self) -> (r: &'static str)
        ensures
            r@ == "the audit store rejected the operation"@,
    {
        "the audit store rejected the operation"
    }
}

/// The outcome of a removal request: both are normal, expected outcomes.
#[derive(Clone, Copy, Debug, PartialEq, Eq, Structural)]
pub enum RemovalOutcome {
    /// Exactly one entry was deleted.
    Removed,
    /// No entry carried the requested serial.
    NotFound,
}

} // verus!
