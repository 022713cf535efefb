//! End-to-end verification of header transitions whose proof rides in the
//! header payload: the address-recovery encodings, the BLS threshold
//! encodings, and the rejection paths.

use dbft_verifier::header::{header_hash, seal_hash, Header};
use bls12_381::hash_to_curve::{ExpandMsgXmd, HashToCurve};
use dbft_verifier::neox::{verify_multi_sigs, verify_update_header};
use k256::ecdsa::SigningKey;

fn base_header(number: u64, timestamp: u64, extra: Vec<u8>, mix: Vec<u8>) -> Header {
    Header {
        parent_hash: vec![0x00; 32],
        ommers_hash: vec![0x22; 32],
        beneficiary: vec![0x33; 20],
        state_root: vec![0x44; 32],
        transactions_root: vec![0x55; 32],
        receipts_root: vec![0x66; 32],
        logs_bloom: vec![0x00; 256],
        difficulty: vec![0x00; 32],
        number,
        gas_limit: 30_000_000,
        gas_used: 21_000,
        timestamp,
        extra_data: extra,
        mix_hash: mix,
        nonce: vec![0x00; 8],
        base_fee_per_gas: Some(1_000_000_000),
        withdrawals_root: None,
    }
}

/// Seven keys with their addresses, sorted ascending by address.
fn committee() -> Vec<(SigningKey, [u8; 20])> {
    let mut members: Vec<(SigningKey, [u8; 20])> = (1u8..=7)
        .map(|i| {
            let sk = SigningKey::from_slice(&[i; 32]).unwrap();
            let addr = alloy_primitives::Address::from_public_key(sk.verifying_key());
            (sk, addr.0 .0)
        })
        .collect();
    members.sort_by(|a, b| a.1.cmp(&b.1));
    members
}

fn sign_seal(sk: &SigningKey, seal: &[u8]) -> Vec<u8> {
    let (sig, recid) = sk.sign_prehash_recoverable(seal).unwrap();
    let mut out = sig.to_bytes().to_vec();
    out.push(recid.to_byte());
    out
}

/// A valid header pair under the given address-recovery version tag.
fn ecdsa_pair(version: u8) -> (Header, Header) {
    let members = committee();
    let mut addr_bytes = Vec::new();
    for (_, a) in &members {
        addr_bytes.extend_from_slice(a);
    }
    let commitment = alloy_primitives::keccak256(&addr_bytes).to_vec();
    let parent = base_header(10, 1_000, vec![0x00], commitment);

    let prefix: Vec<u8> = if version == 0 {
        vec![0x00]
    } else {
        let mut p = vec![version, 0x00];
        p.extend_from_slice(&[0x00; 32]);
        p
    };
    let mut payload = prefix.clone();
    payload.extend_from_slice(&addr_bytes);
    payload.extend_from_slice(&[0x00; 325]);
    let mut current = base_header(11, 1_001, payload, vec![0x99; 32]);
    current.parent_hash = header_hash(&parent);

    let seal = seal_hash(&current).unwrap();
    let mut payload = prefix;
    payload.extend_from_slice(&addr_bytes);
    for (sk, _) in members.iter().take(5) {
        payload.extend_from_slice(&sign_seal(sk, &seal));
    }
    current.extra_data = payload;
    (parent, current)
}

#[test]
fn accepts_legacy_recovery_proof() {
    let (parent, current) = ecdsa_pair(0);
    assert!(verify_update_header(parent, current));
}

#[test]
fn accepts_tagged_recovery_proof() {
    for version in [1u8, 2] {
        let (parent, current) = ecdsa_pair(version);
        assert!(verify_update_header(parent, current));
    }
}

#[test]
fn rejects_height_gap_despite_valid_signatures() {
    let (parent, mut current) = ecdsa_pair(0);
    current.number = 12;
    assert!(!verify_update_header(parent, current));
}

#[test]
fn rejects_stale_timestamp_despite_valid_signatures() {
    let (parent, mut current) = ecdsa_pair(0);
    current.timestamp = 1_000;
    assert!(!verify_update_header(parent.clone(), current.clone()));
    current.timestamp = 999;
    assert!(!verify_update_header(parent, current));
}

#[test]
fn rejects_wrong_parent_link() {
    let (parent, mut current) = ecdsa_pair(0);
    current.parent_hash[7] ^= 1;
    assert!(!verify_update_header(parent, current));
}

#[test]
fn rejects_flipped_signature_bit() {
    let (parent, current) = ecdsa_pair(0);
    // flip one bit in each byte position of the first signature in turn
    for pos in [0usize, 31, 32, 63] {
        let mut tampered = current.clone();
        tampered.extra_data[141 + pos] ^= 1;
        assert!(!verify_update_header(parent.clone(), tampered));
    }
}

#[test]
fn rejects_tampered_committee() {
    let (parent, mut current) = ecdsa_pair(0);
    current.extra_data[1] ^= 1; // first committee address byte
    assert!(!verify_update_header(parent, current));
}

#[test]
fn rejects_truncated_and_unknown_payloads() {
    let (parent, current) = ecdsa_pair(0);
    let mut truncated = current.clone();
    truncated.extra_data.truncate(100);
    assert!(!verify_update_header(parent.clone(), truncated));

    let mut unknown_tag = current.clone();
    unknown_tag.extra_data[0] = 0x09;
    assert!(!verify_update_header(parent.clone(), unknown_tag));

    let mut empty = current.clone();
    empty.extra_data = Vec::new();
    assert!(!verify_update_header(parent, empty));
}

/// The cursor walk requires the signers, sorted ascending, to appear along
/// the committee list in order: set membership alone is not enough.
#[test]
fn cursor_match_requires_list_order() {
    let members = committee();
    let a: Vec<[u8; 20]> = members.iter().map(|m| m.1).collect();
    let msg = vec![0x5a; 32];
    // signers: the committee members whose addresses sort second and fifth
    let sig2 = sign_seal(&members[1].0, &msg);
    let sig5 = sign_seal(&members[4].0, &msg);
    let sigs = vec![sig5.clone(), sig2.clone()];
    // committee order [a1, a3, a5, a2, a4, a6, a7]: a5 is found first and the
    // cursor moves past it, so a2 can no longer be found
    let scrambled: Vec<Vec<u8>> = [0usize, 2, 4, 1, 3, 5, 6].iter().map(|&i| a[i].to_vec()).collect();
    assert!(!verify_multi_sigs(&msg, &sigs, &scrambled));
    // in ascending order both signers are found
    let ordered: Vec<Vec<u8>> = a.iter().map(|x| x.to_vec()).collect();
    assert!(verify_multi_sigs(&msg, &sigs, &ordered));
}

#[test]
fn recovery_rejects_unparseable_signature() {
    let ordered: Vec<Vec<u8>> = committee().iter().map(|m| m.1.to_vec()).collect();
    let msg = vec![0x5a; 32];
    // a parity byte outside the accepted range does not parse
    let mut bad = vec![0x01; 65];
    bad[64] = 0x05;
    assert!(!verify_multi_sigs(&msg, &vec![bad], &ordered));
}

/// A valid header pair under the given threshold version tag. Under the
/// first tag the stored signature point is the negation of the real one.
fn bls_pair(version: u8) -> (Header, Header) {
    let sk = bls12_381::Scalar::from(123_456_789u64);
    let pk = bls12_381::G1Affine::from(bls12_381::G1Projective::generator() * sk);
    let pk_bytes = pk.to_compressed().to_vec();
    let commitment = alloy_primitives::keccak256(&pk_bytes).to_vec();
    let parent = base_header(20, 2_000, vec![0x00], commitment);

    let mut prefix = vec![version, 0x01];
    prefix.extend_from_slice(&[0x00; 32]);
    let mut payload = prefix.clone();
    payload.extend_from_slice(&pk_bytes);
    payload.extend_from_slice(&[0x00; 96]);
    let mut current = base_header(21, 2_001, payload, vec![0x99; 32]);
    current.parent_hash = header_hash(&parent);

    let seal = seal_hash(&current).unwrap();
    let dst = b"BLS_SIG_BLS12381G2_XMD:SHA-256_SSWU_RO_POP_";
    let h = <bls12_381::G2Projective as HashToCurve<ExpandMsgXmd<sha2::Sha256>>>::hash_to_curve(
        [seal.as_slice()],
        dst,
    );
    let sig = bls12_381::G2Affine::from(h * sk);
    let stored = if version == 1 { -sig } else { sig };
    let mut payload = prefix;
    payload.extend_from_slice(&pk_bytes);
    payload.extend_from_slice(&stored.to_compressed().as_slice());
    current.extra_data = payload;
    (parent, current)
}

#[test]
fn accepts_threshold_proof_negated_under_first_tag() {
    let (parent, current) = bls_pair(1);
    assert!(verify_update_header(parent, current));
}

#[test]
fn accepts_threshold_proof_plain_under_final_tag() {
    let (parent, current) = bls_pair(2);
    assert!(verify_update_header(parent, current));
}

#[test]
fn rejects_threshold_proof_with_wrong_sign_convention() {
    // a signature stored un-negated under the first tag must fail, and
    // negated under the final tag likewise
    let (parent, mut current) = bls_pair(1);
    let sig_bytes: Vec<u8> = current.extra_data[82..178].to_vec();
    let sig = bls12_381::G2Affine::from_compressed(&sig_bytes.try_into().unwrap()).unwrap();
    let flipped = (-sig).to_compressed();
    current.extra_data[82..178].copy_from_slice(&flipped);
    assert!(!verify_update_header(parent, current));
}

#[test]
fn rejects_flipped_threshold_signature_bit() {
    let (parent, mut current) = bls_pair(2);
    current.extra_data[177] ^= 1;
    assert!(!verify_update_header(parent, current));
}

#[test]
fn rejects_invalid_group_point_without_panicking() {
    let (parent, mut current) = bls_pair(2);
    // make the stored signature an invalid compressed point but keep the
    // commitment intact
    for b in current.extra_data[82..178].iter_mut() {
        *b = 0xff;
    }
    assert!(!verify_update_header(parent, current));
}
