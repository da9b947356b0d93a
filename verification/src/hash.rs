use vstd::prelude::*;

verus! {

/// The SHA-256 digest of `data`: 32 bytes.
pub uninterp spec fn sha256(data: Seq<u8>) -> Seq<u8>;

/// Calls `solana_program::hash::hash`, which returns the SHA-256 hash of the
/// bytes it is given, and takes the hash's 32 bytes.
#[verifier::external_body]
pub(crate) fn hash(data: &[u8]) -> (r: [u8; 32])
    ensures
        r@ == sha256(data@),
{
    solana_program::hash::hash(data).to_bytes()
}

/// The fingerprint of a sequence of bytes: its SHA-256 digest.
pub fn hash_of(data: &Vec<u8>) -> (r: [u8; 32])
    ensures
        r@ == sha256(data@),
{
    hash(data.as_slice())
}

} // verus!
