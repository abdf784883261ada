//! The error kinds that repository operations report.

use vstd::prelude::*;

verus! {

/// Why a repository operation did not produce a result.
#[derive(Clone, Copy, Debug, PartialEq, Eq, Structural)]
pub enum RepoError {
    /// An id, hash, tag, namespace, thumbnail or buffer key is unknown.
    NotFound,
    /// A uniqueness rule would be violated.
    Conflict,
    /// The main or thumbnail storage location has not been configured.
    StorageUnavailable,
    /// A row refers to bytes that the byte store no longer holds.
    IntegrityError,
    /// No repository connection is active.
    UpstreamDisconnected,
    /// A request could not be decoded.
    InvalidRequest,
    /// The source bytes could not be rendered into a thumbnail.
    RenderFailed,
    /// A table has reached the largest id it can hand out.
    CapacityExceeded,
}

impl RepoError {
    /// A short human-readable description of the error kind.
    pub fn message(&self) -> (text: &'static str)
        ensures
            text@ == self.spec_message(),
    {
        match self {
            RepoError::NotFound => "not found",
            RepoError::Conflict => "conflict",
            RepoError::StorageUnavailable => "no storage configured",
            RepoError::IntegrityError => "stored content is missing",
            RepoError::UpstreamDisconnected => "not connected",
            RepoError::InvalidRequest => "invalid request",
            RepoError::RenderFailed => "failed to create thumbnail",
            RepoError::CapacityExceeded => "capacity exceeded",
        }
    }

    /// The text that [`RepoError::message`] returns for each kind.
    pub open spec fn spec_message(&self) -> Seq<char> {
        match self {
            RepoError::NotFound => "not found"@,
            RepoError::Conflict => "conflict"@,
            RepoError::StorageUnavailable => "no storage configured"@,
            RepoError::IntegrityError => "stored content is missing"@,
            RepoError::UpstreamDisconnected => "not connected"@,
            RepoError::InvalidRequest => "invalid request"@,
            RepoError::RenderFailed => "failed to create thumbnail"@,
            RepoError::CapacityExceeded => "capacity exceeded"@,
        }
    }
}

/// The result type of repository operations.
pub type RepoResult<T> = Result<T, RepoError>;

} // verus!
