//! Trusted wrappers around the BLS12-381 threshold-signature primitives:
//! point decompression and the pairing equality that checks an aggregate
//! signature. Outcomes are functions of the argument bytes alone and are
//! named by uninterpreted spec functions.

use bls12_381::hash_to_curve::{ExpandMsgXmd, HashToCurve};
use vstd::prelude::*;

verus! {

/// Whether 48 bytes decompress to a point of the first curve group.
pub uninterp spec fn bls_g1_ok(b: Seq<u8>) -> bool;

/// Whether 96 bytes decompress to a point of the second curve group.
pub uninterp spec fn bls_g2_ok(b: Seq<u8>) -> bool;

/// Whether the pairing equality holds: the message is hashed to the second
/// group under the domain tag `dst`, the signature point is negated first
/// when `negate` is set, and the check compares `pairing(pk, hash)` with
/// `pairing(generator, sig)`.
pub uninterp spec fn bls_accepts(
    pk: Seq<u8>,
    sig: Seq<u8>,
    negate: bool,
    msg: Seq<u8>,
    dst: Seq<u8>,
) -> bool;

/// Relies on bls12_381::G1Affine::from_compressed: it accepts exactly the
/// valid compressed encodings of the group.
#[verifier::external_body]
pub(crate) fn g1_decodes(b: &Vec<u8>) -> (r: bool)
    requires
        b@.len() == 48,
    ensures
        r == bls_g1_ok(b@),
{
    let arr: [u8; 48] = b.as_slice().try_into().unwrap();
    bool::from(bls12_381::G1Affine::from_compressed(&arr).is_some())
}

/// Relies on bls12_381::G2Affine::from_compressed: it accepts exactly the
/// valid compressed encodings of the group.
#[verifier::external_body]
pub(crate) fn g2_decodes(b: &Vec<u8>) -> (r: bool)
    requires
        b@.len() == 96,
    ensures
        r == bls_g2_ok(b@),
{
    let arr: [u8; 96] = b.as_slice().try_into().unwrap();
    bool::from(bls12_381::G2Affine::from_compressed(&arr).is_some())
}

/// Relies on bls12_381: G1Affine::from_compressed, G2Affine::from_compressed,
/// the Neg impl for G2Affine, HashToCurve::hash_to_curve for G2Projective
/// with the SHA-256 expander, G1Affine::generator, pairing, and equality of
/// the pairing targets. Each of these is deterministic in its inputs, so the
/// outcome is a function of the argument bytes alone.
#[verifier::external_body]
pub(crate) fn bls_pairing_check(
    pk: &Vec<u8>,
    sig: &Vec<u8>,
    negate: bool,
    msg: &Vec<u8>,
    dst: &Vec<u8>,
) -> (r: bool)
    requires
        pk@.len() == 48,
        sig@.len() == 96,
        bls_g1_ok(pk@),
        bls_g2_ok(sig@),
    ensures
        r == bls_accepts(pk@, sig@, negate, msg@, dst@),
{
    let pk_arr: [u8; 48] = pk.as_slice().try_into().unwrap();
    let sig_arr: [u8; 96] = sig.as_slice().try_into().unwrap();
    let pk_point = bls12_381::G1Affine::from_compressed(&pk_arr).unwrap();
    let mut sig_point = bls12_381::G2Affine::from_compressed(&sig_arr).unwrap();
    if negate {
        sig_point = -sig_point;
    }
    let hash_point: bls12_381::G2Affine = <bls12_381::G2Projective as HashToCurve<
        ExpandMsgXmd<sha2::Sha256>,
    >>::hash_to_curve([msg.as_slice()], dst.as_slice()).into();
    let generator = bls12_381::G1Affine::generator();
    bls12_381::pairing(&pk_point, &hash_point) == bls12_381::pairing(&generator, &sig_point)
}

} // verus!
