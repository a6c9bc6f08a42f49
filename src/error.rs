use vstd::prelude::*;

use crate::garbage::GarbageIndex;

verus! {

/// Failures of the walk, the cache and the file operations. Outside errors are carried
/// as their rendered message.
#[derive(Debug)]
pub enum GarbageError {
    IOError(String),
    WalkdirError(String),
    SerializationError(String),
    /// The cache entry is older than its durability allows.
    InvalidCache,
    /// There is no cache entry for the path.
    MissingCache,
}

/// Failures reported to the operator.
#[derive(Debug)]
pub enum ApplicationError {
    MissingArgumentPath,
    InvalidArgumentPath,
    IdNotExists(String),
    GarbageError(GarbageError),
}

impl From<GarbageError> for ApplicationError {
    fn from(error: GarbageError) -> (r: Self)
        ensures
            r == ApplicationError::GarbageError(error),
    {
        ApplicationError::GarbageError(error)
    }
}

impl vstd::std_specs::convert::FromSpecImpl<GarbageError> for ApplicationError {
    open spec fn obeys_from_spec() -> bool {
        true
    }

    open spec fn from_spec(v: GarbageError) -> Self {
        ApplicationError::GarbageError(v)
    }
}

} // verus!
