//! Service-layer rules behind the HTTP handlers: message record checks and
//! edits, round-structure checks, administrator chat commands, settlement
//! request helpers.
use vstd::prelude::*;

pub mod admin_messages;
pub mod aliases;
pub mod messages;
pub mod replay;
pub mod rounds;
pub mod settlement;
pub mod snapshot;

verus! {

/// `anyhow::Error`, carried through unchanged.
#[verifier::external_type_specification]
#[verifier::external_body]
pub struct ExAnyhowError(anyhow::Error);

/// A service failure, mapped by the handlers to an HTTP error.
pub enum ServiceError {
    BadRequest(String),
    NotFound(String),
    /// The caller's revision is stale; carries the current one.
    StaleRevision(u64),
    Internal(anyhow::Error),
}

} // verus!
