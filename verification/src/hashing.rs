//! Keyed 64-bit hashing of byte strings.
//!
//! Both filter variants address their bit arrays through the xxh3 hash
//! family. The hash values are pure functions of the input bytes (and the
//! seed), so they are modelled by uninterpreted spec functions: the library
//! states nothing about the individual bits of a hash, only that the same
//! input always hashes to the same value.

use vstd::prelude::*;

verus! {

/// The 64-bit xxh3 hash of a byte string.
pub uninterp spec fn xxh3_of(data: Seq<u8>) -> u64;

/// The 64-bit xxh3 hash of a byte string under a 64-bit seed.
pub uninterp spec fn xxh3_seeded_of(seed: u64, data: Seq<u8>) -> u64;

/// Relies on xxhash_rust::xxh3::xxh3_64: the result is a pure function of
/// the input bytes.
#[verifier::external_body]
pub(crate) fn xxh3(data: &[u8]) -> (r: u64)
    ensures
        r == xxh3_of(data@),
{
    xxhash_rust::xxh3::xxh3_64(data)
}

/// Relies on xxhash_rust::xxh3::xxh3_64_with_seed: the result is a pure
/// function of the input bytes and the seed.
#[verifier::external_body]
pub(crate) fn xxh3_seeded(data: &[u8], seed: u64) -> (r: u64)
    ensures
        r == xxh3_seeded_of(seed, data@),
{
    xxhash_rust::xxh3::xxh3_64_with_seed(data, seed)
}

} // verus!
