//! Epoch identifiers and merkle roots: opaque 32-byte hashes.

use vstd::prelude::*;
use vstd::slice::slice_to_vec;

verus! {

/// How many bytes a hash carries.
pub open spec fn hash_len() -> int {
    32
}

/// The sentinel hash of all zero bytes, denoting "before the first
/// snapshot" when used as an epoch identifier.
pub open spec fn spec_null_hash() -> Seq<u8> {
    Seq::new(32, |i: int| 0u8)
}

/// A 32-byte opaque hash.
#[derive(Debug, PartialEq, Eq)]
pub struct Hash256 {
    bytes: Vec<u8>,
}

/// An epoch identifier.
pub type EpochId = Hash256;

/// The root of a merkle tree.
pub type MerkleHash = Hash256;

impl View for Hash256 {
    type V = Seq<u8>;

    closed spec fn view(&self) -> Seq<u8> {
        self.bytes@
    }
}

impl Hash256 {
    /// A hash always holds exactly 32 bytes.
    pub open spec fn wf(&self) -> bool {
        self@.len() == hash_len()
    }

    /// Wrap 32 bytes.
    pub fn from_bytes(bytes: Vec<u8>) -> (r: Hash256)
        requires
            bytes@.len() == hash_len(),
        ensures
            r@ == bytes@,
            r.wf(),
    {
        Hash256 { bytes }
    }

    /// The sentinel `NULL_EPOCH`.
    pub fn null_epoch() -> (r: Hash256)
        ensures
            r@ == spec_null_hash(),
            r.wf(),
    {
        let mut bytes: Vec<u8> = Vec::new();
        let mut i: usize = 0;
        while i < 32
            invariant
                i <= 32,
                bytes@.len() == i,
                forall|j: int| 0 <= j < i ==> bytes@[j] == 0u8,
            decreases 32 - i,
        {
            bytes.push(0u8);
            i = i + 1;
        }
        assert(bytes@ =~= spec_null_hash());
        Hash256 { bytes }
    }

    /// The raw bytes.
    pub fn bytes(&self) -> (r: &Vec<u8>)
        ensures
            r@ == self@,
    {
        &self.bytes
    }

    /// An owned copy.
    pub fn duplicate(&self) -> (r: Hash256)
        ensures
            r@ == self@,
    {
        Hash256 { bytes: slice_to_vec(self.bytes.as_slice()) }
    }

    /// Whether this is the all-zero sentinel.
    pub fn is_null(&self) -> (r: bool)
        requires
            self.wf(),
        ensures
            r == (self@ == spec_null_hash()),
    {
        let mut i: usize = 0;
        while i < 32
            invariant
                self.wf(),
                i <= 32,
                forall|j: int| 0 <= j < i ==> self@[j] == 0u8,
            decreases 32 - i,
        {
            if self.bytes[i] != 0 {
                assert(self@[i as int] != spec_null_hash()[i as int]);
                return false;
            }
            i = i + 1;
        }
        assert(self@ =~= spec_null_hash());
        true
    }

    /// Whether two hashes hold the same bytes.
    pub fn same_as(&self, other: &Hash256) -> (r: bool)
        ensures
            r == (self@ == other@),
    {
        if self.bytes.len() != other.bytes.len() {
            return false;
        }
        let mut i: usize = 0;
        while i < self.bytes.len()
            invariant
                self@.len() == other@.len(),
                i <= self@.len(),
                forall|j: int| 0 <= j < i ==> self@[j] == other@[j],
            decreases self@.len() - i,
        {
            if self.bytes[i] != other.bytes[i] {
                return false;
            }
            i = i + 1;
        }
        assert(self@ =~= other@);
        true
    }

    /// The byte at an index.
    pub fn byte_at(&self, i: usize) -> (r: u8)
        requires
            i < self@.len(),
        ensures
            r == self@[i as int],
    {
        self.bytes[i]
    }
}

} // verus!
