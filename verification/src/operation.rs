//! Operation value types carried through the log.
//!
//! These are plain, immutable records. The document-selection payload of a
//! delete operation is an opaque capability supplied by the caller: the log
//! never inspects it, so it is a type parameter here.

use vstd::prelude::*;

verus! {

/// Timestamped delete operation.
///
/// `target` selects the documents to delete; the log carries it through
/// untouched.
pub struct DeleteOperation<T> {
    /// The opstamp assigned to this operation.
    pub opstamp: crate::Opstamp,
    /// The opaque capability used for selecting the documents to delete.
    pub target: T,
}

/// Timestamped add operation.
pub struct AddOperation<D> {
    /// The opstamp assigned to this operation.
    pub opstamp: crate::Opstamp,
    /// The document data to be indexed.
    pub document: D,
}

/// A user-facing operation: either an addition or a deletion.
pub enum UserOperation<D, T> {
    /// Add a document.
    Add(D),
    /// Delete the documents selected by the given term.
    Delete(T),
}

} // verus!
