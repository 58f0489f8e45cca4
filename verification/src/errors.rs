//! The error taxonomy of the cache. Every error here is fatal to the
//! in-flight transaction: nothing in this crate retries or recovers.

use vstd::prelude::*;

verus! {

/// Why an operation of the cache failed.
#[derive(Clone, Copy, Debug, PartialEq, Eq, Structural)]
pub enum StatusCode {
    /// The VM's own assumptions about type shape were violated: a resource
    /// key resolved to something other than a struct tag, or a value that is
    /// known to be well typed could not be encoded.
    InternalTypeError,
    /// The loader does not know the runtime type at all.
    TypeResolutionFailure,
    /// Backing bytes do not match the expected layout: corrupted storage,
    /// not a user input error.
    FailedToDeserializeResource,
    /// A referenced module exists neither in the local write set nor in
    /// storage: a dependency resolution problem, not an engine fault.
    LinkerError,
    /// The backing resolver itself failed during an existence check.
    StorageError,
    /// The backing resolver failed where its contract reserves errors for
    /// storage-level faults: reported as an engine-level fault.
    UnknownInvariantViolationError,
    /// A slot operation expected a resource value that is not there.
    MissingData,
    /// A slot operation would create a resource value where one is already
    /// present.
    ResourceAlreadyExists,
}

} // verus!
