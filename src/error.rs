use vstd::prelude::*;

verus! {

/// The ways a request against the store can fail.
#[derive(Debug, Clone, Copy, PartialEq, Eq, Structural)]
pub enum DbError {
    /// A collection with that name is already registered.
    DuplicateCollection,
    /// No collection with that name is registered.
    UnknownCollection,
    /// A record or template names a field that the collection did not declare.
    SchemaViolation,
    /// The request text does not have the shape its verb asks for.
    MalformedRequest,
    /// The verb is not one the store understands.
    UnsupportedCommand,
    /// The registry could not be written out or read back.
    PersistenceFailure,
}

impl DbError {
    /// The text sent back to a client for a failure.
    pub open spec fn message_text(self) -> Seq<char> {
        match self {
            DbError::DuplicateCollection => "Collection name already exists."@,
            DbError::UnknownCollection => "Collection name does not exist."@,
            DbError::SchemaViolation => "Error"@,
            DbError::MalformedRequest => "Malformed request"@,
            DbError::UnsupportedCommand => "Unsupport query type"@,
            DbError::PersistenceFailure => "Failed to store in disk"@,
        }
    }

    /// The text sent back to a client for this failure.
    pub fn message(&self) -> (r: &'static str)
        ensures
            r@ == self.message_text(),
    {
        match self {
            DbError::DuplicateCollection => "Collection name already exists.",
            DbError::UnknownCollection => "Collection name does not exist.",
            DbError::SchemaViolation => "Error",
            DbError::MalformedRequest => "Malformed request",
            DbError::UnsupportedCommand => "Unsupport query type",
            DbError::PersistenceFailure => "Failed to store in disk",
        }
    }
}

} // verus!
