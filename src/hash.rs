//! BLAKE2b-256, the hash that names tree nodes and derived addresses.
use vstd::prelude::*;
use crate::primitives::{u64_from_be, H256};

verus! {

/// The 32-byte BLAKE2b digest of `data`.
pub uninterp spec fn blake2b_256(data: Seq<u8>) -> Seq<u8>;

/// Relies on blake2's `Blake2b<U32>` (`Digest::digest`): the 32-byte BLAKE2b
/// digest of `data`, which depends on `data` alone.
#[verifier::external_body]
fn blake2b_256_digest(data: &[u8]) -> (r: [u8; 32])
    ensures
        r@ == blake2b_256(data@),
{
    let out = <blake2::Blake2b<blake2::digest::consts::U32> as blake2::Digest>::digest(data);
    out.into()
}

/// The value whose 32 bytes, most significant first, are `b`.
pub open spec fn h256_from_seq(b: Seq<u8>) -> H256 {
    H256 {
        w0: u64_from_be(b.subrange(0, 8)),
        w1: u64_from_be(b.subrange(8, 16)),
        w2: u64_from_be(b.subrange(16, 24)),
        w3: u64_from_be(b.subrange(24, 32)),
    }
}

/// The hash of `data` as an `H256`.
pub open spec fn hash_of(data: Seq<u8>) -> H256 {
    h256_from_seq(blake2b_256(data))
}

/// The hash of `data`.
pub fn hash_bytes(data: &Vec<u8>) -> (r: H256)
    ensures
        r == hash_of(data@),
{
    let digest = blake2b_256_digest(data.as_slice());
    H256::from_bytes(digest)
}

/// The hash of the 32 bytes of `h`.
pub fn default_hash(h: &H256) -> (r: H256)
    ensures
        r == hash_of(h.spec_bytes()),
{
    hash_bytes(&h.to_bytes())
}

} // verus!
