//! Trusted digest wrappers. Each digest is named by an uninterpreted spec
//! function of the input bytes alone; the wrappers relate the runtime result
//! to that name.

use vstd::prelude::*;

verus! {

/// The Keccak-256 digest of a byte string.
pub uninterp spec fn keccak256_of(b: Seq<u8>) -> Seq<u8>;

/// The SHA-256 digest of a byte string.
pub uninterp spec fn sha256_of(b: Seq<u8>) -> Seq<u8>;

/// The RIPEMD-160 digest of a byte string.
pub uninterp spec fn ripemd160_of(b: Seq<u8>) -> Seq<u8>;

/// The 20-byte script-hash digest: RIPEMD-160 over SHA-256.
pub open spec fn hash160_of(b: Seq<u8>) -> Seq<u8> {
    ripemd160_of(sha256_of(b))
}

/// Relies on alloy_primitives::keccak256: the 32-byte Keccak-256 digest,
/// a function of the input bytes alone.
#[verifier::external_body]
pub(crate) fn keccak256(b: &Vec<u8>) -> (r: Vec<u8>)
    ensures
        r@ == keccak256_of(b@),
        r@.len() == 32,
{
    alloy_primitives::keccak256(b.as_slice()).to_vec()
}

/// Relies on sha2::Sha256 (via the Digest trait): the 32-byte SHA-256
/// digest, a function of the input bytes alone.
#[verifier::external_body]
pub(crate) fn sha256(b: &Vec<u8>) -> (r: Vec<u8>)
    ensures
        r@ == sha256_of(b@),
        r@.len() == 32,
{
    <sha2::Sha256 as sha2::Digest>::digest(b.as_slice()).to_vec()
}

/// Relies on ripemd::Ripemd160 (via the Digest trait): the 20-byte
/// RIPEMD-160 digest, a function of the input bytes alone.
#[verifier::external_body]
pub(crate) fn ripemd160(b: &Vec<u8>) -> (r: Vec<u8>)
    ensures
        r@ == ripemd160_of(b@),
        r@.len() == 20,
{
    <ripemd::Ripemd160 as ripemd::Digest>::digest(b.as_slice()).to_vec()
}

/// The script-hash digest used for committee commitments.
pub fn hash160(b: &Vec<u8>) -> (r: Vec<u8>)
    ensures
        r@ == hash160_of(b@),
        r@.len() == 20,
{
    let s = sha256(b);
    ripemd160(&s)
}

} // verus!
