//! A minimal local credential store.
//!
//! Username/secret pairs are kept as salted, hashed records in a flat,
//! length-prefixed byte format, and short-lived session tokens are managed
//! in memory with time-based expiry.

use vstd::prelude::*;

pub mod codec;
pub mod cred;
pub mod hashing;
pub mod session;
pub mod store;

verus! {

/// The failure modes of the store and of the hashing backend.
#[derive(Clone, Copy, Debug, PartialEq, Eq, Structural)]
pub enum SucError {
    /// A key or value exceeds the 255-byte limit.
    InvalidInput,
    /// An `add` found the key already present.
    AlreadyExists,
    /// A lookup or removal found no record for the key.
    NotFound,
    /// A decoded length prefix would read past the loaded buffer.
    CorruptStore,
    /// A stored hash string could not be parsed, or the hashing backend
    /// failed for a reason other than a digest mismatch.
    HashingFault,
}

} // verus!
