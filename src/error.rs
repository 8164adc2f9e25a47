use vstd::prelude::*;

verus! {

/// The failures of the client and of the catalog adapter.
#[derive(Debug)]
pub enum NessieError {
    /// Connectivity or timeout; safe to retry with backoff above this layer.
    Transport(String),
    /// A non-success status, with the response body kept for diagnostics.
    Protocol { status: u16, body: String },
    /// A response body that could not be decoded.
    Decode(String),
    /// The addressed reference, namespace or table does not exist.
    NotFound(String),
    /// The namespace or table to create already exists.
    AlreadyExists(String),
    /// A namespace still holds entries and no cascade was asked for.
    NotEmpty(String),
    /// The service refused a commit or a deletion because the reference moved.
    Conflict(String),
    /// A commit of the adapter lost the optimistic race.
    ConcurrentModification(String),
    /// A malformed key segment or a missing required field.
    Validation(String),
    /// The base address or an endpoint could not be parsed.
    Url(url::ParseError),
}

} // verus!
