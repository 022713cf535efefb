//! The script-proof chain: grammar, commitment, the bipartite matcher with
//! real curve material, and the rejection paths.

use dbft_verifier::bundle::{encode_script_proof, ProofBundle};
use dbft_verifier::hashes::hash160;
use dbft_verifier::n3::{verify_multi_sigs, verify_update_header, Block, Witness};
use p256::ecdsa::signature::{Signer, Verifier};

fn keys7() -> Vec<Vec<u8>> {
    (0u8..7).map(|i| vec![0x02 + (i % 2); 35]).collect()
}

fn script_sigs5() -> Vec<Vec<u8>> {
    (0u8..5).map(|i| vec![0x40 + i; 64]).collect()
}

/// A structurally clean block pair carrying the given witness scripts.
fn block_pair(verification: Vec<u8>, invocation: Vec<u8>) -> (Block, Block) {
    let next_consensus = hash160(&verification);
    let parent = Block {
        hash: vec![0xaa; 32],
        prev_block_hash: vec![0x00; 32],
        index: 17,
        time: 1_000,
        next_consensus,
        witnesses: Vec::new(),
    };
    let current = Block {
        hash: vec![0xbb; 32],
        prev_block_hash: parent.hash.clone(),
        index: 18,
        time: 1_001,
        next_consensus: vec![0x00; 20],
        witnesses: vec![Witness { invocation, verification }],
    };
    (parent, current)
}

#[test]
fn structural_checks_run_before_signatures() {
    let b = ProofBundle::ScriptForm { pubkeys: keys7(), signatures: script_sigs5() };
    let (v, inv) = encode_script_proof(&b);
    let (parent, current) = block_pair(v, inv);

    let mut gap = current.clone();
    gap.index = 19;
    assert!(!verify_update_header(parent.clone(), gap));

    let mut stale = current.clone();
    stale.time = 1_000;
    assert!(!verify_update_header(parent.clone(), stale));

    let mut unlinked = current.clone();
    unlinked.prev_block_hash[0] ^= 1;
    assert!(!verify_update_header(parent.clone(), unlinked));

    let mut no_witness = current.clone();
    no_witness.witnesses = Vec::new();
    assert!(!verify_update_header(parent, no_witness));
}

#[test]
fn rejects_commitment_mismatch() {
    let b = ProofBundle::ScriptForm { pubkeys: keys7(), signatures: script_sigs5() };
    let (v, inv) = encode_script_proof(&b);
    let (mut parent, current) = block_pair(v, inv);
    parent.next_consensus[0] ^= 1;
    assert!(!verify_update_header(parent, current));
}

#[test]
fn rejects_tampered_script_without_panicking() {
    let b = ProofBundle::ScriptForm { pubkeys: keys7(), signatures: script_sigs5() };
    let (v, inv) = encode_script_proof(&b);
    // truncated verification script: the commitment is recomputed over the
    // truncated bytes so the structured rejection comes from the grammar
    let mut short = v.clone();
    short.pop();
    let (parent, current) = block_pair(short, inv.clone());
    assert!(!verify_update_header(parent, current));
    // bad opcode with a matching commitment
    let mut bad = v.clone();
    bad[261] = 0x40;
    let (parent, current) = block_pair(bad, inv);
    assert!(!verify_update_header(parent, current));
}

#[test]
fn script_wire_keys_do_not_parse_as_curve_points() {
    // the wire format's 35-byte key items are not valid curve encodings, so
    // a committed, well-formed script still fails the signature check
    let b = ProofBundle::ScriptForm { pubkeys: keys7(), signatures: script_sigs5() };
    let (v, inv) = encode_script_proof(&b);
    let (parent, current) = block_pair(v, inv);
    assert!(!verify_update_header(parent, current));
}

fn curve_committee() -> Vec<p256::ecdsa::SigningKey> {
    (1u8..=7).map(|i| p256::ecdsa::SigningKey::from_slice(&[i; 32]).unwrap()).collect()
}

fn key_bytes(sk: &p256::ecdsa::SigningKey) -> Vec<u8> {
    sk.verifying_key().to_sec1_point(true).as_bytes().to_vec()
}

#[test]
fn bipartite_matcher_accepts_five_of_seven() {
    let committee = curve_committee();
    let msg = vec![0xbb; 32];
    let pubs: Vec<Vec<u8>> = committee.iter().map(key_bytes).collect();
    let sigs: Vec<Vec<u8>> = committee
        .iter()
        .take(5)
        .map(|sk| {
            let sig: p256::ecdsa::Signature = sk.sign(&msg);
            // self-check the fixture against the verifying side
            sk.verifying_key().verify(&msg, &sig).unwrap();
            sig.to_bytes().to_vec()
        })
        .collect();
    assert!(verify_multi_sigs(&msg, &pubs, &sigs));
}

#[test]
fn bipartite_matcher_rejects_four_of_seven() {
    let committee = curve_committee();
    let msg = vec![0xbb; 32];
    let pubs: Vec<Vec<u8>> = committee.iter().map(key_bytes).collect();
    let mut sigs: Vec<Vec<u8>> = committee
        .iter()
        .take(4)
        .map(|sk| {
            let sig: p256::ecdsa::Signature = sk.sign(&msg);
            sig.to_bytes().to_vec()
        })
        .collect();
    // the fifth signature is over a different message
    let other = vec![0xcc; 32];
    let sig: p256::ecdsa::Signature = committee[4].sign(&other);
    sigs.push(sig.to_bytes().to_vec());
    assert!(!verify_multi_sigs(&msg, &pubs, &sigs));
}

#[test]
fn bipartite_matcher_flips_on_single_bit() {
    let committee = curve_committee();
    let msg = vec![0xbb; 32];
    let pubs: Vec<Vec<u8>> = committee.iter().map(key_bytes).collect();
    let mut sigs: Vec<Vec<u8>> = committee
        .iter()
        .take(5)
        .map(|sk| {
            let sig: p256::ecdsa::Signature = sk.sign(&msg);
            sig.to_bytes().to_vec()
        })
        .collect();
    assert!(verify_multi_sigs(&msg, &pubs, &sigs));
    sigs[0][10] ^= 1;
    assert!(!verify_multi_sigs(&msg, &pubs, &sigs));
}

#[test]
fn bipartite_matcher_is_order_free() {
    // unlike the recovery encoding, key order and signature order do not
    // matter here
    let committee = curve_committee();
    let msg = vec![0xbb; 32];
    let mut pubs: Vec<Vec<u8>> = committee.iter().map(key_bytes).collect();
    let mut sigs: Vec<Vec<u8>> = committee
        .iter()
        .take(5)
        .map(|sk| {
            let sig: p256::ecdsa::Signature = sk.sign(&msg);
            sig.to_bytes().to_vec()
        })
        .collect();
    pubs.reverse();
    sigs.reverse();
    assert!(verify_multi_sigs(&msg, &pubs, &sigs));
}

#[test]
fn bipartite_matcher_rejects_unparseable_key() {
    let committee = curve_committee();
    let msg = vec![0xbb; 32];
    let mut pubs: Vec<Vec<u8>> = committee.iter().map(key_bytes).collect();
    let sigs: Vec<Vec<u8>> = committee
        .iter()
        .take(5)
        .map(|sk| {
            let sig: p256::ecdsa::Signature = sk.sign(&msg);
            sig.to_bytes().to_vec()
        })
        .collect();
    pubs[6] = vec![0x02; 35];
    assert!(!verify_multi_sigs(&msg, &pubs, &sigs));
}
