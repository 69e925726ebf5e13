//! The error taxonomy of the access layer.

use vstd::prelude::*;

verus! {

/// Every operation of the layer either succeeds or yields one of these
/// kinds. Absence of a key is never an error: point reads report it as a
/// valid empty result.
#[derive(Clone, Copy, Debug, PartialEq, Eq, Structural)]
pub enum Error {
    /// The path of an engine directory cannot be encoded for the engine
    /// (it holds an interior NUL byte).
    PathEncodingError,
    /// The engine directory could not be created.
    DirectoryCreationError,
    /// The engine reported an input/output failure.
    IOError,
    /// The name does not denote a live column family of this handle.
    InvalidColumnFamily,
    /// The engine handed back a null native reference while constructing an
    /// object; the operation is aborted before a partially usable object
    /// escapes.
    NullNativeHandle,
    /// An argument was rejected before any engine call, such as an empty key
    /// in a transactional write, or a name that would collide in the
    /// registry.
    InvalidArgument,
    /// A lock could not be acquired: a conflicting lock was held by another
    /// transaction when the configured timeout elapsed.
    LockTimeout,
    /// Deadlock detection aborted this participant of a lock cycle.
    DeadlockDetected,
}

} // verus!
