//! Operation failures surfaced by the library. Storage-level failures
//! (environment negotiation, transaction commit) surface at the I/O edge
//! around the library; the kinds here are the ones the committed-state model
//! itself can produce.

use vstd::prelude::*;

verus! {

/// Why a mutation or settings update was rejected. On any error the
/// enclosing write transaction is discarded: no partial state is visible.
#[derive(Debug, PartialEq, Eq)]
pub enum Error {
    /// A ranking-rule name outside the fixed vocabulary was supplied.
    UnknownRankingRule { name: String },
    /// The primary-key designation cannot change while documents exist.
    PrimaryKeyCannotChange,
    /// No primary key is set and none could be inferred from the first
    /// record of the batch.
    NoPrimaryKeyCandidate,
    /// A record of the batch carries no value for the primary-key field.
    DocumentMissingPrimaryKey,
    /// A record's primary-key value is not a string identifier.
    InvalidPrimaryKeyValue,
}

impl Error {
    /// A human-readable description of the failure.
    pub fn message(&self) -> String {
        match self {
            Error::UnknownRankingRule { name: _ } => "unknown ranking rule name".to_string(),
            Error::PrimaryKeyCannotChange => "primary key cannot change on a non-empty index".to_string(),
            Error::NoPrimaryKeyCandidate => "no primary-key field could be inferred".to_string(),
            Error::DocumentMissingPrimaryKey => "document is missing the primary-key field".to_string(),
            Error::InvalidPrimaryKeyValue => "primary-key value is not a string".to_string(),
        }
    }
}

} // verus!
