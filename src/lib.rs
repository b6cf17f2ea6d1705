//! A time-to-live cache engine: fingerprinted keys, timestamped entries,
//! sliding expiry, periodic sweeping of expired entries and eviction of the
//! oldest entries under byte pressure.
pub mod cache;
pub mod error;
pub mod eviction;
pub mod hash;
pub mod laws;

pub use cache::{cleanup_interval_secs, CacheEntry, GustCache, DEFAULT_TTL_MS};
pub use error::CacheError;
pub use eviction::{select_oldest, EVICTION_INTERVAL_SECS, EVICTION_PERCENT, MAX_BYTE_SIZE};
pub use hash::generate_hash;
