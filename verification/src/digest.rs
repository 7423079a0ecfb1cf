//! SHA3-256 hashing, the one primitive the Merkle tree is built from.

use sha3::{Digest, Sha3_256};
use vstd::prelude::*;

verus! {

/// A 32-byte SHA3-256 digest.
pub type NodeHash = [u8; 32];

/// The SHA3-256 digest of a byte string, as computed by the `sha3` crate.
pub uninterp spec fn sha3_256(data: Seq<u8>) -> Seq<u8>;

/// Calls `sha3::Sha3_256::digest`. Claimed of it: the 32-byte result is the
/// SHA3-256 digest of `data` (a function of the input bytes alone).
#[verifier::external_body]
pub(crate) fn sha3_256_digest(data: &[u8]) -> (res: NodeHash)
    ensures
        res@ == sha3_256(data@),
{
    Sha3_256::digest(data).into()
}

} // verus!
