//! Fixed-width values that travel through the pipeline: hashes, addresses and
//! 256-bit integers.

use vstd::prelude::*;
use vstd::std_specs::cmp::PartialEqSpecImpl;

verus! {

/// A 32-byte hash: a block root, a block hash, a transaction hash or a
/// versioned hash.
#[derive(Clone, Copy, Debug)]
pub struct Hash256 {
    pub bytes: [u8; 32],
}

impl Hash256 {
    /// The hash whose bytes are `bytes`, where `bytes` has 32 of them.
    pub closed spec fn of_bytes(bytes: Seq<u8>) -> Hash256 {
        choose|h: Hash256| h.bytes@ == bytes
    }

    /// A hash is determined by its bytes.
    pub proof fn lemma_of_bytes(self)
        ensures
            Hash256::of_bytes(self.bytes@) == self,
    {
        let h = Hash256::of_bytes(self.bytes@);
        assert(h.bytes =~= self.bytes);
    }
}

impl PartialEq for Hash256 {
    fn eq(&self, other: &Hash256) -> (equal: bool) {
        let mut i: usize = 0;
        while i < 32
            invariant
                i <= 32,
                forall|j: int| 0 <= j < i ==> self.bytes[j] == other.bytes[j],
            decreases 32 - i,
        {
            if self.bytes[i] != other.bytes[i] {
                return false;
            }
            i += 1;
        }
        assert(self.bytes =~= other.bytes);
        true
    }
}

impl PartialEqSpecImpl for Hash256 {
    open spec fn obeys_eq_spec() -> bool {
        true
    }

    open spec fn eq_spec(&self, other: &Hash256) -> bool {
        *self == *other
    }
}

impl Eq for Hash256 {

}

/// A 20-byte account address.
#[derive(Clone, Copy, Debug, PartialEq, Eq)]
pub struct Address {
    pub bytes: [u8; 20],
}

/// An unsigned 256-bit integer, least significant limb first.
#[derive(Clone, Copy, Debug, PartialEq, Eq)]
pub struct Uint256 {
    pub limbs: [u64; 4],
}

} // verus!
