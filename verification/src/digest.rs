//! The cryptographic digest that the proof of work is measured against.

use sha2::Digest;
use sha2::Sha256;
use vstd::prelude::*;

verus! {

/// Length of a SHA-256 digest in bytes.
pub const DIGEST_LEN: usize = 32;

/// The SHA-256 digest of `data`.
pub uninterp spec fn sha256_of(data: Seq<u8>) -> Seq<u8>;

/// Calls `sha2::Sha256::digest`.
///
/// Trusted: the result is the SHA-256 digest of `data`, a function of the
/// bytes of `data` alone, and it is 32 bytes long.
#[verifier::external_body]
pub(crate) fn sha256(data: &[u8]) -> (out: Vec<u8>)
    ensures
        out@ == sha256_of(data@),
        out@.len() == DIGEST_LEN,
{
    Sha256::digest(data).to_vec()
}

} // verus!
