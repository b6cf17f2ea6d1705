//! Errors that a compute function may hand back through the cache.
use vstd::prelude::*;

verus! {

/// A failure to write or to read the data behind the cache, with its message.
#[derive(Debug, Clone, PartialEq, Eq)]
pub enum CacheError {
    Write(String),
    Read(String),
}

} // verus!
