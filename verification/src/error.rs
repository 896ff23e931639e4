use vstd::prelude::*;

verus! {

/// What can go wrong inside the store.
#[derive(Clone, Copy, Debug, PartialEq, Eq, Structural)]
pub enum StorageError {
    /// A page index at or beyond the page cache's capacity was requested.
    CapacityExceeded,
    /// A stored text field does not hold valid UTF-8.
    CorruptRecord,
    /// A row index at or beyond the number of rows was requested.
    OutOfRange,
}

} // verus!
