use vstd::prelude::*;

verus! {

/// Everything a catalog operation can fail with.
///
/// `Storage` carries the backend's own message and covers every failure of
/// the embedded store itself (unreachable file, I/O error, rejected
/// statement). `DuplicateKey` reports an insert whose ISBN is already
/// present. `NotFound` reports an ISBN lookup miss. `InvalidQuery` reports
/// a keyword search with an empty keyword list, which is rejected before
/// it reaches the store.
#[derive(Debug, Clone, PartialEq, Eq)]
pub enum StoreError {
    Storage(String),
    DuplicateKey,
    NotFound,
    InvalidQuery,
}

impl StoreError {
    /// A short human-readable label for the error kind.
    pub fn describe(&self) -> (r: &'static str)
        ensures
            (match self {
                StoreError::Storage(_) => r@ == "storage failure"@,
                StoreError::DuplicateKey => r@ == "duplicate key"@,
                StoreError::NotFound => r@ == "not found"@,
                StoreError::InvalidQuery => r@ == "invalid query"@,
            }),
    {
        match self {
            StoreError::Storage(_) => "storage failure",
            StoreError::DuplicateKey => "duplicate key",
            StoreError::NotFound => "not found",
            StoreError::InvalidQuery => "invalid query",
        }
    }
}

} // verus!
