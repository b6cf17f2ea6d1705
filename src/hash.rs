//! Fingerprints of hashable keys.
use std::hash::{DefaultHasher, Hash, Hasher};
use vstd::prelude::*;

verus! {

/// Relies on `Hash::hash`: feeds the key's own hash input into `hasher`.
#[verifier::external_body]
fn feed<T: Hash>(value: &T, hasher: &mut DefaultHasher) {
    value.hash(hasher)
}

/// The 64-bit fingerprint of `value`, under std's default hasher.
///
/// Equal keys whose `Hash` impls feed the same input get the same
/// fingerprint; distinct keys may collide, which the cache accepts.
pub fn generate_hash<T: Hash>(value: &T) -> (r: u64) {
    let mut hasher = DefaultHasher::new();
    feed(value, &mut hasher);
    hasher.finish()
}

} // verus!
