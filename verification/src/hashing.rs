//! SHA-256, as the `sha2` crate computes it.

use vstd::prelude::*;

verus! {

/// What `sha2` computes as the SHA-256 digest of a byte string.
pub uninterp spec fn sha256_digest(data: Seq<u8>) -> Seq<u8>;

/// The SHA-256 digest of `data` as the 32 bytes that a digest has. It is
/// `sha256_digest(data)`; the other branch only says what stands here should
/// that not be 32 bytes long, which `sha2` never hands out.
pub open spec fn digest32(data: Seq<u8>) -> Seq<u8> {
    if sha256_digest(data).len() == 32 {
        sha256_digest(data)
    } else {
        Seq::new(32, |i: int| 0u8)
    }
}

/// Calls `sha2::Sha256::digest` on `data` and copies the output into a
/// vector. Trusted: the output is the SHA-256 digest, a function of the input
/// bytes alone, and it is 32 bytes long (the hasher's output size is `U32`).
#[verifier::external_body]
fn sha256(data: &[u8]) -> (out: Vec<u8>)
    ensures
        out@ == sha256_digest(data@),
        out@.len() == 32,
{
    <sha2::Sha256 as sha2::Digest>::digest(data).to_vec()
}

/// The SHA-256 digest of `data`.
pub fn digest(data: &[u8]) -> (out: Vec<u8>)
    ensures
        out@ == digest32(data@),
        out@ == sha256_digest(data@),
        out@.len() == 32,
{
    sha256(data)
}

} // verus!
