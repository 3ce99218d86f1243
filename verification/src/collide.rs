//! A hasher under which all content collides.
use vstd::prelude::*;
use std::hash::Hasher;

verus! {

/// A hasher that always outputs `0`: every probe starts at slot zero. It
/// serves to exercise collision handling.
pub struct CollideHasher;

impl Hasher for CollideHasher {
    /// Takes the bytes and keeps nothing of them.
    fn write(&mut self, _bytes: &[u8]) {
    }

    /// The digest, which is zero whatever was written.
    fn finish(&self) -> (digest: u64)
        ensures
            digest == 0,
    {
        0
    }
}

} // verus!
