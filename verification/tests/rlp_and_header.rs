//! The canonical encoders against an independent RLP implementation.

use dbft_verifier::header::{encode_header, encode_sig_header, header_hash, header_payload_length, Header};
use dbft_verifier::rlp::{append_rlp_list_header, append_rlp_string, append_rlp_u64, be_bytes_u64};
use dbft_verifier::FormatError;

fn sample_header(extra: Vec<u8>) -> Header {
    Header {
        parent_hash: vec![0x11; 32],
        ommers_hash: vec![0x22; 32],
        beneficiary: vec![0x33; 20],
        state_root: vec![0x44; 32],
        transactions_root: vec![0x55; 32],
        receipts_root: vec![0x66; 32],
        logs_bloom: vec![0x00; 256],
        difficulty: vec![0x00; 32],
        number: 2715866,
        gas_limit: 30_000_000,
        gas_used: 21_000,
        timestamp: 1_700_000_123,
        extra_data: extra,
        mix_hash: vec![0x77; 32],
        nonce: vec![0x00; 8],
        base_fee_per_gas: Some(1_000_000_000),
        withdrawals_root: Some(vec![0x88; 32]),
    }
}

fn alloy_header(h: &Header) -> alloy_consensus::Header {
    alloy_consensus::Header {
        parent_hash: alloy_primitives::B256::from_slice(&h.parent_hash),
        ommers_hash: alloy_primitives::B256::from_slice(&h.ommers_hash),
        beneficiary: alloy_primitives::Address::from_slice(&h.beneficiary),
        state_root: alloy_primitives::B256::from_slice(&h.state_root),
        transactions_root: alloy_primitives::B256::from_slice(&h.transactions_root),
        receipts_root: alloy_primitives::B256::from_slice(&h.receipts_root),
        logs_bloom: alloy_primitives::Bloom::from_slice(&h.logs_bloom),
        difficulty: alloy_primitives::U256::from_be_slice(&h.difficulty),
        number: h.number,
        gas_limit: h.gas_limit,
        gas_used: h.gas_used,
        timestamp: h.timestamp,
        extra_data: alloy_primitives::Bytes::from(h.extra_data.clone()),
        mix_hash: alloy_primitives::B256::from_slice(&h.mix_hash),
        nonce: alloy_primitives::B64::from_slice(&h.nonce),
        base_fee_per_gas: h.base_fee_per_gas,
        withdrawals_root: h.withdrawals_root.as_ref().map(|w| alloy_primitives::B256::from_slice(w)),
        ..Default::default()
    }
}

#[test]
fn be_bytes_is_minimal_big_endian() {
    assert_eq!(be_bytes_u64(0), Vec::<u8>::new());
    assert_eq!(be_bytes_u64(1), vec![1]);
    assert_eq!(be_bytes_u64(0x1234), vec![0x12, 0x34]);
    assert_eq!(be_bytes_u64(u64::MAX), vec![0xff; 8]);
}

#[test]
fn rlp_u64_matches_reference() {
    for n in [0u64, 1, 0x7f, 0x80, 0xff, 0x100, 1_000_000, u64::MAX] {
        let mut out = Vec::new();
        append_rlp_u64(&mut out, n);
        assert_eq!(out, alloy_rlp::encode(n));
    }
}

#[test]
fn rlp_string_matches_reference() {
    for len in [0usize, 1, 2, 55, 56, 100, 300] {
        let data: Vec<u8> = (0..len).map(|i| (i % 251) as u8).collect();
        let mut out = Vec::new();
        append_rlp_string(&mut out, &data);
        assert_eq!(out, alloy_rlp::encode(alloy_primitives::Bytes::from(data.clone())));
    }
    // a single byte below 0x80 encodes as itself
    let mut out = Vec::new();
    append_rlp_string(&mut out, &vec![0x05]);
    assert_eq!(out, vec![0x05]);
}

#[test]
fn rlp_list_header_matches_reference() {
    for len in [0usize, 1, 55, 56, 1000] {
        let mut out = Vec::new();
        append_rlp_list_header(&mut out, len);
        let reference = alloy_rlp::Header { list: true, payload_length: len };
        let mut expect = Vec::new();
        reference.encode(&mut expect);
        assert_eq!(out, expect);
    }
}

#[test]
fn header_hash_matches_reference_hash() {
    for extra in [vec![0x00], vec![0x01, 0x00, 0x07, 0x09], vec![0x99; 40]] {
        let h = sample_header(extra);
        let ours = header_hash(&h);
        let theirs = alloy_header(&h).hash_slow();
        assert_eq!(ours.as_slice(), theirs.as_slice());
    }
}

#[test]
fn header_payload_length_matches_reference() {
    let h = sample_header(vec![0x00]);
    let encoded = encode_header(&h);
    let envelope = alloy_rlp::Header {
        list: true,
        payload_length: header_payload_length(&h),
    };
    let mut prefix = Vec::new();
    envelope.encode(&mut prefix);
    assert!(encoded.starts_with(&prefix));
    assert_eq!(encoded.len(), prefix.len() + header_payload_length(&h));
}

#[test]
fn seal_form_keeps_one_byte_prefix_for_legacy_tag() {
    // with a one-byte payload the seal form and the full form coincide
    let h = sample_header(vec![0x00]);
    let seal = encode_sig_header(&h).unwrap();
    assert_eq!(seal, encode_header(&h));
}

#[test]
fn seal_form_cuts_tagged_payload_to_its_prefix() {
    let mut prefix = vec![0x01, 0x00];
    prefix.extend_from_slice(&[0xab; 32]);
    let mut full = prefix.clone();
    full.extend_from_slice(&[0xcd; 100]);
    let cut = sample_header(full);
    let kept = sample_header(prefix);
    assert_eq!(encode_sig_header(&cut).unwrap(), encode_header(&kept));
}

#[test]
fn seal_form_treats_both_tagged_versions_alike() {
    let mut p1 = vec![0x01, 0x01];
    p1.extend_from_slice(&[0x00; 32]);
    p1.extend_from_slice(&[0xcd; 144]);
    let mut p2 = p1.clone();
    p2[0] = 0x02;
    let h1 = sample_header(p1);
    let h2 = sample_header(p2);
    let s1 = encode_sig_header(&h1).unwrap();
    let s2 = encode_sig_header(&h2).unwrap();
    assert_eq!(s1.len(), s2.len());
    assert_ne!(s1, s2);
}

#[test]
fn seal_form_rejects_unknown_tag_and_short_payload() {
    let h = sample_header(vec![0x09]);
    assert_eq!(encode_sig_header(&h), Err(FormatError::UnknownVersion));
    let h = sample_header(Vec::new());
    assert_eq!(encode_sig_header(&h), Err(FormatError::UnknownVersion));
    let h = sample_header(vec![0x01, 0x00, 0x01]);
    assert_eq!(encode_sig_header(&h), Err(FormatError::BadLength));
}
