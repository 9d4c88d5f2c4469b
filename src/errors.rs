//! Errors of the storage and query layer.

use vstd::prelude::*;

verus! {

/// What can go wrong in the store: a failure of the database engine, of the
/// file system, a store used before it was set up, or a request that is not
/// well formed (a bad date, an inverted range).
#[derive(Debug, PartialEq, Eq)]
pub enum StoreError {
    Sqlite(String),
    Io(String),
    NotInitialized,
    InvalidQuery(String),
}

impl StoreError {
    /// The human-readable form of the error.
    pub fn message(&self) -> (r: String) {
        let mut out: Vec<char> = Vec::new();
        match self {
            StoreError::Sqlite(m) => {
                crate::text::push_str(&mut out, "SQLite error: ");
                crate::text::push_str(&mut out, m.as_str());
            },
            StoreError::Io(m) => {
                crate::text::push_str(&mut out, "IO error: ");
                crate::text::push_str(&mut out, m.as_str());
            },
            StoreError::NotInitialized => {
                crate::text::push_str(&mut out, "Database not initialized");
            },
            StoreError::InvalidQuery(m) => {
                crate::text::push_str(&mut out, "Invalid query: ");
                crate::text::push_str(&mut out, m.as_str());
            },
        }
        crate::text::string_of(&out)
    }
}

} // verus!
