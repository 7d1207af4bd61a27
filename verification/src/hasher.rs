//! The tree's hash function.
//!
//! Every node hash in the tree is a SHA3-256 digest: a value node's hash is
//! the digest of its value bytes, an inner node's hash is the digest of the
//! concatenation of its children's hashes.

use sha3::Digest;
use vstd::prelude::*;

verus! {

/// The SHA3-256 digest of the given bytes. The digest is a deterministic
/// function of its input alone; nothing is assumed here about its value.
pub uninterp spec fn hash_of(data: Seq<u8>) -> Seq<u8>;

/// The length in bytes of every digest the hasher produces.
pub const HASH_LENGTH: usize = 32;

/// Relies on `sha3::Sha3_256::digest` (through `digest::Digest`): a
/// deterministic digest of the input bytes, 32 bytes long.
#[verifier::external_body]
pub fn hash_bytes(data: &[u8]) -> (r: Vec<u8>)
    ensures
        r@ == hash_of(data@),
        r@.len() == HASH_LENGTH,
{
    sha3::Sha3_256::digest(data).as_slice().to_vec()
}

/// Hashes the concatenation of two byte strings, as an inner node's hash is
/// computed from its children.
pub fn hash_pair(left: &[u8], right: &[u8]) -> (r: Vec<u8>)
    ensures
        r@ == hash_of(left@ + right@),
        r@.len() == HASH_LENGTH,
{
    let mut buf: Vec<u8> = Vec::new();
    buf.extend_from_slice(left);
    buf.extend_from_slice(right);
    proof {
        assert(buf@ == left@ + right@);
    }
    hash_bytes(buf.as_slice())
}

} // verus!
