//! The content-hashing primitive shared by every pool.
//!
//! Interners deduplicate by content hash: one fixed, non-randomized
//! algorithm is used for the whole process, so that equal inputs always map
//! to the same key within a pool's lifetime.

use vstd::prelude::*;

verus! {

/// The 64-bit digest that the crate's fixed hash algorithm assigns to a byte
/// sequence.  The digest is a function of the bytes alone.
pub uninterp spec fn fnv64(data: Seq<u8>) -> u64;

/// Hash a byte sequence with the crate's fixed hash algorithm.
///
/// Relies on `fnv::FnvHasher` (`Hasher::write`, then `Hasher::finish`): the
/// digest folds in each written byte in order, starting from a fixed seed,
/// so it depends on the byte sequence alone.
#[verifier::external_body]
pub fn hash(data: &[u8]) -> (r: u64)
    ensures
        r == fnv64(data@),
{
    let mut hasher: fnv::FnvHasher = Default::default();
    std::hash::Hasher::write(&mut hasher, data);
    std::hash::Hasher::finish(&hasher)
}

} // verus!
