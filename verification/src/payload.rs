//! Payloads and their digests.

use bytes::Bytes;
use sha2::Digest;
use vstd::prelude::*;

verus! {

/// `bytes::Bytes`, a chunk of bytes that is cheap to copy.
#[verifier::external_type_specification]
#[verifier::external_body]
pub struct ExBytes(Bytes);

/// The bytes that a chunk holds.
pub uninterp spec fn content(chunk: Bytes) -> Seq<u8>;

/// `Bytes::len`: how many bytes a chunk holds.
pub assume_specification[ Bytes::len ](chunk: &Bytes) -> (len: usize)
    ensures
        len == content(*chunk).len(),
;

/// `Bytes::clone`: a chunk that holds the same bytes.
pub assume_specification[ <Bytes as Clone>::clone ](chunk: &Bytes) -> (copy: Bytes)
    ensures
        content(copy) == content(*chunk),
;

/// `Bytes::from` of a vector: a chunk that holds the bytes of the vector.
pub assume_specification[ <Bytes as From<Vec<u8>>>::from ](bytes: Vec<u8>) -> (chunk: Bytes)
    ensures
        content(chunk) == bytes@,
;

/// The SHA-256 digest of some bytes.
pub uninterp spec fn sha256(bytes: Seq<u8>) -> Seq<u8>;

/// `Sha256::digest`: the SHA-256 digest of the bytes of a chunk.
#[verifier::external_body]
pub(crate) fn digest(chunk: &Bytes) -> (hash: [u8; 32])
    ensures
        hash@ == sha256(content(*chunk)),
{
    sha2::Sha256::digest(chunk).into()
}

} // verus!
