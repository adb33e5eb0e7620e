use sha2::Digest;
use vstd::prelude::*;

verus! {

/// The SHA-256 digest (FIPS 180-4) of a byte string.
pub uninterp spec fn sha256_spec(data: Seq<u8>) -> Seq<u8>;

/// Calls `sha2::Sha256::digest`. Claimed: the 32 returned bytes are the
/// SHA-256 digest of `data`, a function of `data` alone.
#[verifier::external_body]
pub(crate) fn sha256(data: &[u8]) -> (digest: [u8; 32])
    ensures
        digest@ == sha256_spec(data@),
{
    sha2::Sha256::digest(data).into()
}

} // verus!
