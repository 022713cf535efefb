//! Trusted wrappers around the two ECDSA primitives the verifier needs:
//! address recovery on the secp256k1 curve, and signature verification on
//! the NIST P-256 curve. Outcomes are functions of the argument bytes alone
//! and are named by uninterpreted spec functions.

use p256::ecdsa::signature::Verifier;
use vstd::prelude::*;

verus! {

/// Whether 65 raw bytes parse as a recoverable secp256k1 signature.
pub uninterp spec fn ecdsa_sig_ok(sig: Seq<u8>) -> bool;

/// The address recovered from a signature over a 32-byte prehash, if any.
pub uninterp spec fn ecdsa_recover(hash: Seq<u8>, sig: Seq<u8>) -> Option<Seq<u8>>;

/// Relies on alloy_primitives::Signature::from_raw: it accepts exactly the
/// 65-byte strings whose final byte is a valid parity value.
#[verifier::external_body]
pub(crate) fn ecdsa_sig_parses(sig: &Vec<u8>) -> (r: bool)
    ensures
        r == ecdsa_sig_ok(sig@),
{
    alloy_primitives::Signature::from_raw(sig.as_slice()).is_ok()
}

/// Relies on alloy_primitives::Signature::recover_address_from_prehash
/// (after Signature::from_raw): the 20-byte address determined by the
/// prehash and the signature bytes, or nothing when recovery fails.
#[verifier::external_body]
pub(crate) fn recover_signer(hash: &Vec<u8>, sig: &Vec<u8>) -> (r: Option<Vec<u8>>)
    requires
        hash@.len() == 32,
        ecdsa_sig_ok(sig@),
    ensures
        match r {
            Some(a) => ecdsa_recover(hash@, sig@) == Some(a@) && a@.len() == 20,
            None => ecdsa_recover(hash@, sig@) is None,
        },
{
    let parsed = match alloy_primitives::Signature::from_raw(sig.as_slice()) {
        Ok(s) => s,
        Err(_) => return None,
    };
    let prehash = alloy_primitives::B256::from_slice(hash.as_slice());
    match parsed.recover_address_from_prehash(&prehash) {
        Ok(addr) => Some(addr.to_vec()),
        Err(_) => None,
    }
}

/// Whether the bytes parse as a P-256 verifying key in SEC1 form.
pub uninterp spec fn p256_key_ok(pk: Seq<u8>) -> bool;

/// Whether 64 raw bytes parse as a P-256 signature.
pub uninterp spec fn p256_sig_ok(sig: Seq<u8>) -> bool;

/// Whether the signature verifies for the key over the message (which the
/// scheme hashes with SHA-256 before the curve check).
pub uninterp spec fn p256_verifies(pk: Seq<u8>, msg: Seq<u8>, sig: Seq<u8>) -> bool;

/// Relies on p256::ecdsa::VerifyingKey::from_sec1_bytes: it accepts exactly
/// the valid SEC1 point encodings of the curve.
#[verifier::external_body]
pub(crate) fn p256_key_parses(pk: &Vec<u8>) -> (r: bool)
    ensures
        r == p256_key_ok(pk@),
{
    p256::ecdsa::VerifyingKey::from_sec1_bytes(pk.as_slice()).is_ok()
}

/// Relies on p256::ecdsa::Signature::from_slice: it accepts exactly the
/// 64-byte strings whose halves are nonzero scalars of the curve.
#[verifier::external_body]
pub(crate) fn p256_sig_parses(sig: &Vec<u8>) -> (r: bool)
    ensures
        r == p256_sig_ok(sig@),
{
    p256::ecdsa::Signature::from_slice(sig.as_slice()).is_ok()
}

/// Relies on the signature::Verifier impl for p256::ecdsa::VerifyingKey:
/// the outcome is a function of key, message and signature bytes alone.
#[verifier::external_body]
pub(crate) fn p256_verify(pk: &Vec<u8>, msg: &Vec<u8>, sig: &Vec<u8>) -> (r: bool)
    requires
        p256_key_ok(pk@),
        p256_sig_ok(sig@),
    ensures
        r == p256_verifies(pk@, msg@, sig@),
{
    let vk = p256::ecdsa::VerifyingKey::from_sec1_bytes(pk.as_slice()).unwrap();
    let s = p256::ecdsa::Signature::from_slice(sig.as_slice()).unwrap();
    vk.verify(msg.as_slice(), &s).is_ok()
}

} // verus!
