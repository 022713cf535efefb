//! The committed output tuple and the digest wrappers against known values.

use dbft_verifier::hashes::hash160;
use dbft_verifier::header::{header_hash, Header};
use dbft_verifier::outputs::{proof_outputs, ProofOutputs};

fn sample_header(number: u64, mix: u8) -> Header {
    Header {
        parent_hash: vec![0x11; 32],
        ommers_hash: vec![0x22; 32],
        beneficiary: vec![0x33; 20],
        state_root: vec![0x44; 32],
        transactions_root: vec![0x55; 32],
        receipts_root: vec![0x66; 32],
        logs_bloom: vec![0x00; 256],
        difficulty: vec![0x00; 32],
        number,
        gas_limit: 30_000_000,
        gas_used: 21_000,
        timestamp: 1_700_000_000 + number,
        extra_data: vec![0x00],
        mix_hash: vec![mix; 32],
        nonce: vec![0x00; 8],
        base_fee_per_gas: None,
        withdrawals_root: None,
    }
}

#[test]
fn hash160_of_empty_input() {
    let got = hash160(&Vec::new());
    let want = hex::decode("b472a266d0bd89c13706a4132ccfb16f7c3b9fcb").unwrap();
    assert_eq!(got, want);
}

#[test]
fn outputs_carry_hashes_and_commitments() {
    let parent = sample_header(10, 0x77);
    let current = sample_header(11, 0x88);
    let o = proof_outputs(&parent, &current);
    assert_eq!(o.prev_header, header_hash(&parent));
    assert_eq!(o.new_header, header_hash(&current));
    assert_eq!(o.content_root, current.state_root);
    assert_eq!(o.consensus_hash, parent.mix_hash);
    assert_eq!(o.next_consensus_hash, current.mix_hash);
}

#[test]
fn abi_encoding_is_five_words_in_order() {
    let o = ProofOutputs {
        prev_header: vec![0x01; 32],
        new_header: vec![0x02; 32],
        content_root: vec![0x03; 32],
        consensus_hash: vec![0x04; 32],
        next_consensus_hash: vec![0x05; 32],
    };
    let e = o.abi_encode();
    assert_eq!(e.len(), 160);
    assert_eq!(&e[0..32], vec![0x01; 32].as_slice());
    assert_eq!(&e[32..64], vec![0x02; 32].as_slice());
    assert_eq!(&e[64..96], vec![0x03; 32].as_slice());
    assert_eq!(&e[96..128], vec![0x04; 32].as_slice());
    assert_eq!(&e[128..160], vec![0x05; 32].as_slice());
}
