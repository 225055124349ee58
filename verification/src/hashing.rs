//! The calls into std's randomly keyed hashing.

use std::hash::{BuildHasher, Hash, RandomState};
use vstd::prelude::*;

verus! {

/// Calls `RandomState::new`, which draws fresh keys. Two calls may give
/// different hash functions, so nothing is claimed of the value returned.
#[verifier::external_body]
pub(crate) fn fresh_random_state() -> (state: RandomState) {
    RandomState::new()
}

/// Calls `RandomState`'s `clone`. Nothing is claimed of the copy.
#[verifier::external_body]
pub(crate) fn clone_random_state(state: &RandomState) -> (copy: RandomState) {
    state.clone()
}

/// Calls `BuildHasher::hash_one` on `state`, which feeds `item` to a hasher
/// keyed by `state` and returns its digest. The digest may be any `u64`:
/// nothing is claimed of it.
#[verifier::external_body]
pub(crate) fn hash_one<T: Hash>(state: &RandomState, item: &T) -> (digest: u64) {
    state.hash_one(item)
}

} // verus!
