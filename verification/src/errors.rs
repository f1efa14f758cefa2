//! The error taxonomy of the store.
//!
//! `Throttled` is the transient rate-limit signal that the retry loop
//! consumes; the other variants are terminal and surface to the caller of an
//! upload or download operation.

use vstd::prelude::*;

verus! {

/// One failure of a storage operation.
#[derive(Debug)]
pub enum PentaractError {
    /// The remote service rejected a request because the caller exceeded its
    /// allowed request rate; transient, retried with backoff.
    Throttled,
    /// No credential became free before the acquisition deadline: a
    /// resource-exhaustion signal, distinct from network failures.
    WorkerUnavailable,
    /// The remote API failed terminally; carries a description of the last
    /// observed condition.
    TelegramAPIError(String),
    /// A non-throttle error response or transport failure, propagated
    /// immediately and never retried.
    RemoteProtocolError(String),
    /// A failure of the persistence layer, propagated unchanged.
    PersistenceError(String),
    /// The file would need more chunks than a chunk position can number.
    FileTooLarge,
}

pub type PentaractResult<T> = Result<T, PentaractError>;

} // verus!
