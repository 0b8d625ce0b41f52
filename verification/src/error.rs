//! The ways in which an operation on the forum can fail.

use vstd::prelude::*;

verus! {

/// The error of the database layer. Nothing is known of what it holds.
#[verifier::external_type_specification]
#[verifier::external_body]
pub struct ExDatabaseFailure(rusqlite::Error);

pub type ForumResult<T> = Result<T, ForumError>;

#[derive(Debug)]
pub enum ForumError {
    /// The database refused or failed a statement.
    DatabaseError(rusqlite::Error),
    /// The lock round the shared connection was poisoned by an earlier holder.
    LockError(String),
    /// An author or a message was empty once trimmed.
    ValidationError(&'static str),
    /// No post has this identifier, or it cannot be deleted any more.
    PostNotFound(usize),
}

impl ForumError {
    /// The status of the response that reports this error: the client is at
    /// fault for a submission that is refused and for a post that does not
    /// exist, the server for everything else.
    pub open spec fn status(self) -> u16 {
        match self {
            ForumError::ValidationError(_) => 400,
            ForumError::PostNotFound(_) => 404,
            _ => 500,
        }
    }

    pub fn status_code(&self) -> (code: u16)
        ensures
            code == self.status(),
    {
        match self {
            ForumError::ValidationError(_) => 400,
            ForumError::PostNotFound(_) => 404,
            _ => 500,
        }
    }
}

} // verus!
