use vstd::prelude::*;
use sha3::Digest;

verus! {

/// The Keccak-256 digest of a byte string.
pub uninterp spec fn keccak256_of(data: Seq<u8>) -> Seq<u8>;

/// Relies on `sha3::Keccak256::digest` (through `digest::Digest`): the
/// digest depends on the input bytes alone and is 32 bytes long (the
/// output size `U32` of `Keccak256`).
#[verifier::external_body]
pub(crate) fn keccak256(data: &[u8]) -> (r: Vec<u8>)
    ensures
        r@ == keccak256_of(data@),
        r@.len() == 32,
{
    sha3::Keccak256::digest(data).to_vec()
}

} // verus!
