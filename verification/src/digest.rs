//! The one hash that identities are made of.
use sha2::Digest;
use vstd::prelude::*;

verus! {

/// The SHA-256 digest of `message`.
pub uninterp spec fn sha256_of(message: Seq<u8>) -> Seq<u8>;

/// `Sha256::digest`. Claimed: the thirty-two bytes are a function of the message
/// alone. That different messages have different digests is not claimed: it is
/// only infeasible to find two that do not.
#[verifier::external_body]
pub(crate) fn sha256(message: &[u8]) -> (digest: [u8; 32])
    ensures
        digest@ == sha256_of(message@),
{
    sha2::Sha256::digest(message).into()
}

} // verus!
