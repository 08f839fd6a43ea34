//! The identity of a peer.

use vstd::prelude::*;

verus! {

/// The identity of a peer: the multihash of its public key.
#[derive(Clone, Copy, Debug, PartialEq, Eq)]
pub struct PeerId {
    /// The code of the hash function.
    pub code: u64,
    /// The number of bytes of `digest` that are in use.
    pub size: u8,
    /// The hash, filled up with zeros.
    pub digest: [u8; 64],
}

impl PeerId {
    /// Whether both identities are the same.
    pub fn same(&self, other: &PeerId) -> (b: bool)
        ensures
            b == (*self == *other),
    {
        if self.code != other.code || self.size != other.size {
            return false;
        }
        let mut i: usize = 0;
        while i < 64
            invariant
                i <= 64,
                self.code == other.code,
                self.size == other.size,
                forall|j: int| 0 <= j < i ==> self.digest[j] == other.digest[j],
            decreases 64 - i,
        {
            if self.digest[i] != other.digest[i] {
                return false;
            }
            i = i + 1;
        }
        assert(self.digest =~= other.digest);
        true
    }
}

} // verus!
