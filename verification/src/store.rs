//! The runtime's read-only model of a persistent store entry.
//!
//! The store itself lives in the host and persists across invocations; the
//! runtime only consumes entries the host hands back.  An entry carries a
//! type tag, a content hash, a mask flag that gates whether its payload may
//! currently be read, and the payload bytes.

use vstd::prelude::*;

verus! {

/// Type tag of an empty store slot.
pub const DATA_STORE_TYPE_EMPTY: i32 = 0;

/// Type tag of a general-file store entry.
pub const DATA_STORE_TYPE_GENERAL_FILE: i32 = 1;

/// One persistent store entry as the runtime reads it.
pub struct DataStoreObject {
    /// Entry type tag (empty or general file).
    pub entry_type: i32,
    /// Hash of the stored content.
    pub hash: u64,
    /// Non-zero while the payload is masked and must not be read.
    pub masked: i32,
    /// The payload bytes.
    pub data: Vec<u8>,
}

impl DataStoreObject {
    /// Returns the payload bytes.
    pub fn as_bytes(&self) -> (r: &Vec<u8>)
        ensures
            r@ == self.data@,
    {
        &self.data
    }

    /// True exactly when the entry is an empty slot.
    pub fn is_empty(&self) -> (r: bool)
        ensures
            r == (self.entry_type == DATA_STORE_TYPE_EMPTY),
    {
        self.entry_type == DATA_STORE_TYPE_EMPTY
    }

    /// True exactly when the payload is currently masked.
    pub fn is_masked(&self) -> (r: bool)
        ensures
            r == (self.masked != 0),
    {
        self.masked != 0
    }
}

} // verus!
