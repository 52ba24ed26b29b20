//! Hashes used by the bridged chains, and the 32-byte hash type the engine
//! stores.
//!
//! The hash computations are done by the counterparty ecosystem's own hashing
//! crate, so that keys and head hashes match what the bridged chain computes.

use vstd::prelude::*;

verus! {

/// A 32-byte hash value: a block hash, a head hash or a state root.
#[derive(Clone, Copy, PartialEq, Eq, Debug)]
pub struct Hash32(pub [u8; 32]);

impl View for Hash32 {
    type V = Seq<u8>;

    open spec fn view(&self) -> Seq<u8> {
        self.0@
    }
}

impl Hash32 {
    /// Byte-wise equality, usable from verified code.
    pub fn equals(&self, other: &Hash32) -> (r: bool)
        ensures
            r <==> self@ == other@,
    {
        let mut i: usize = 0;
        while i < 32
            invariant
                i <= 32,
                forall|j: int| 0 <= j < i ==> self.0@[j] == other.0@[j],
            decreases 32 - i,
        {
            if self.0[i] != other.0[i] {
                assert(self@ != other@) by {
                    assert(self.0@[i as int] != other.0@[i as int]);
                }
                return false;
            }
            i = i + 1;
        }
        assert(self.0@ =~= other.0@);
        true
    }
}

/// What the Blake2b-256 hash of a byte string is.
pub uninterp spec fn blake2_256_of(data: Seq<u8>) -> Seq<u8>;

/// What the 128-bit XX hash of a byte string is.
pub uninterp spec fn twox_128_of(data: Seq<u8>) -> Seq<u8>;

/// What the 64-bit XX hash of a byte string is.
pub uninterp spec fn twox_64_of(data: Seq<u8>) -> Seq<u8>;

/// Relies on sp_crypto_hashing::blake2_256: a 32-byte digest that depends on
/// the input bytes alone.
#[verifier::external_body]
pub fn blake2_256(data: &Vec<u8>) -> (r: Hash32)
    ensures
        r@ == blake2_256_of(data@),
{
    Hash32(sp_crypto_hashing::blake2_256(data))
}

/// Relies on sp_crypto_hashing::twox_128: a 16-byte digest that depends on
/// the input bytes alone.
#[verifier::external_body]
pub fn twox_128(data: &Vec<u8>) -> (r: Vec<u8>)
    ensures
        r@ == twox_128_of(data@),
        r@.len() == 16,
{
    sp_crypto_hashing::twox_128(data).to_vec()
}

/// Relies on sp_crypto_hashing::twox_64: an 8-byte digest that depends on
/// the input bytes alone.
#[verifier::external_body]
pub fn twox_64(data: &Vec<u8>) -> (r: Vec<u8>)
    ensures
        r@ == twox_64_of(data@),
        r@.len() == 8,
{
    sp_crypto_hashing::twox_64(data).to_vec()
}

} // verus!
