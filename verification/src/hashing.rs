//! Key hashing: the 64-bit digest that turns a key into a hash.

use vstd::prelude::*;

verus! {

/// The XXH64 digest of `bytes` under `seed`.
///
/// The digest is a fixed function of the seed and the bytes: the same on
/// every machine and in every run.  Nothing else is assumed of it.
pub uninterp spec fn xxh64_digest(seed: u64, bytes: Seq<u8>) -> u64;

/// Hashes `bytes` under `seed` with `xxhash_rust::xxh64::xxh64`.
///
/// Trusted, not proved: that the call returns, for every input, and that
/// what it returns depends on the seed and on the bytes alone, which is
/// what naming it [`xxh64_digest`] says.
#[verifier::external_body]
pub(crate) fn digest_bytes(seed: u64, bytes: &[u8]) -> (digest: u64)
    ensures
        digest == xxh64_digest(seed, bytes@),
{
    xxhash_rust::xxh64::xxh64(bytes, seed)
}

} // verus!
