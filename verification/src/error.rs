//! The failures that the store reports to its callers.

use vstd::prelude::*;

verus! {

/// Why an operation on the store was refused.
#[derive(Clone, Copy, Debug, PartialEq, Eq, Structural)]
pub enum StoreError {
    /// A user with the same name is registered already.
    DuplicateUsername,
    /// A row names an owner that is not a registered user.
    ForeignKeyViolation,
    /// The relation has used up the identities that it can assign.
    IdentitiesExhausted,
    /// Rows were presented out of order of identity, or an identity twice.
    PrimaryKeyViolation,
    /// The credential hash for a new user could not be computed.
    CredentialHashFailed,
    /// The text is not a document: it is not an array of objects.
    MalformedDocument,
    /// The entry at `index` lacks a text `description` or a boolean `completed`.
    MalformedEntry { index: usize },
    /// The tasks could not be written out as a document.
    SerializationFailed,
}

} // verus!
