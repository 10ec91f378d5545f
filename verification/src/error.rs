//! The one error type of the engine.

use vstd::prelude::*;

verus! {

/// What went wrong in an engine operation.
///
/// Malformed images surface as `InvalidPage`, `InvalidTuple` or
/// `CorruptedData`; faults of the block device as `PageNotFound` or `IoError`;
/// a page without room as `NoFreeSpace`; misuse of the interface as
/// `InvalidTransaction` or `InvalidOperation`.
#[derive(Debug)]
pub enum HeapError {
    InvalidPage(String),
    InvalidTuple(String),
    InvalidTransaction(String),
    InvalidVisibility(String),
    StorageError(String),
    IoError(String),
    PageNotFound(u32),
    NoFreeSpace,
    CorruptedData(String),
    InvalidOperation(String),
    LockError(String),
}

} // verus!
