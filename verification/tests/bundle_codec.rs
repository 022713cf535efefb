//! Round trips and malformed-input behavior of the three proof encodings.

use dbft_verifier::bundle::{
    decode_metadata_proof, decode_script_proof, encode_metadata_proof, encode_script_proof,
    ProofBundle,
};
use dbft_verifier::FormatError;

fn keys7() -> Vec<Vec<u8>> {
    (0u8..7).map(|i| vec![0x02 + (i % 2); 35]).collect()
}

fn script_sigs5() -> Vec<Vec<u8>> {
    (0u8..5).map(|i| vec![0x40 + i; 64]).collect()
}

fn addrs7() -> Vec<Vec<u8>> {
    (0u8..7).map(|i| vec![0x10 + i; 20]).collect()
}

fn ecdsa_sigs5() -> Vec<Vec<u8>> {
    (0u8..5).map(|i| vec![0x50 + i; 65]).collect()
}

fn assert_script_eq(b: &ProofBundle, keys: &[Vec<u8>], sigs: &[Vec<u8>]) {
    match b {
        ProofBundle::ScriptForm { pubkeys, signatures } => {
            assert_eq!(pubkeys.as_slice(), keys);
            assert_eq!(signatures.as_slice(), sigs);
        }
        _ => panic!("wrong variant"),
    }
}

#[test]
fn script_proof_round_trip() {
    let b = ProofBundle::ScriptForm { pubkeys: keys7(), signatures: script_sigs5() };
    let (verification, invocation) = encode_script_proof(&b);
    assert_eq!(verification.len(), 266);
    assert_eq!(invocation.len(), 330);
    let back = decode_script_proof(&verification, &invocation).unwrap();
    assert_script_eq(&back, &keys7(), &script_sigs5());
}

#[test]
fn script_grammar_details() {
    let b = ProofBundle::ScriptForm { pubkeys: keys7(), signatures: script_sigs5() };
    let (v, inv) = encode_script_proof(&b);
    assert_eq!(v[0], 0x15); // the threshold push
    assert_eq!(v[1], 0x0c); // first data push
    assert_eq!(v[2], 35); // key length byte
    assert_eq!(v[260], 0x17); // the committee-size push
    assert_eq!(v[261], 0x41); // syscall
    assert_eq!(&v[262..266], hex::decode("9ed0dc3a").unwrap().as_slice());
    assert_eq!(inv[0], 0x0c);
    assert_eq!(inv[1], 64);
}

#[test]
fn script_decode_rejects_malformed_buffers() {
    let b = ProofBundle::ScriptForm { pubkeys: keys7(), signatures: script_sigs5() };
    let (v, inv) = encode_script_proof(&b);

    let mut short = v.clone();
    short.pop();
    assert_eq!(decode_script_proof(&short, &inv), Err(FormatError::BadLength));

    let mut long = v.clone();
    long.push(0);
    assert_eq!(decode_script_proof(&long, &inv), Err(FormatError::BadLength));

    let mut bad_first = v.clone();
    bad_first[0] = 0x16;
    assert_eq!(decode_script_proof(&bad_first, &inv), Err(FormatError::BadOpcode));

    let mut bad_len_byte = v.clone();
    bad_len_byte[2] = 33;
    assert_eq!(decode_script_proof(&bad_len_byte, &inv), Err(FormatError::BadOpcode));

    let mut bad_id = v.clone();
    bad_id[265] ^= 1;
    assert_eq!(decode_script_proof(&bad_id, &inv), Err(FormatError::BadOpcode));

    let mut short_inv = inv.clone();
    short_inv.truncate(329);
    assert_eq!(decode_script_proof(&v, &short_inv), Err(FormatError::BadLength));

    let mut bad_sig_len = inv.clone();
    bad_sig_len[1] = 63;
    assert_eq!(decode_script_proof(&v, &bad_sig_len), Err(FormatError::BadOpcode));
}

#[test]
fn metadata_round_trip_legacy() {
    let b = ProofBundle::RecoveredForm { version: 0, addresses: addrs7(), signatures: ecdsa_sigs5() };
    let p = encode_metadata_proof(&b);
    assert_eq!(p.len(), 466);
    assert_eq!(p[0], 0);
    let back = decode_metadata_proof(&p).unwrap();
    match back {
        ProofBundle::RecoveredForm { version, addresses, signatures } => {
            assert_eq!(version, 0);
            assert_eq!(addresses, addrs7());
            assert_eq!(signatures, ecdsa_sigs5());
        }
        _ => panic!("wrong variant"),
    }
}

#[test]
fn metadata_round_trip_tagged_ecdsa() {
    for version in [1u8, 2] {
        let b = ProofBundle::RecoveredForm {
            version,
            addresses: addrs7(),
            signatures: ecdsa_sigs5(),
        };
        let p = encode_metadata_proof(&b);
        assert_eq!(p.len(), 499);
        assert_eq!(p[0], version);
        assert_eq!(p[1], 0);
        let back = decode_metadata_proof(&p).unwrap();
        match back {
            ProofBundle::RecoveredForm { version: v2, addresses, signatures } => {
                assert_eq!(v2, version);
                assert_eq!(addresses, addrs7());
                assert_eq!(signatures, ecdsa_sigs5());
            }
            _ => panic!("wrong variant"),
        }
    }
}

#[test]
fn metadata_round_trip_threshold() {
    for version in [1u8, 2] {
        let b = ProofBundle::ThresholdForm {
            version,
            group_key: vec![0xaa; 48],
            group_signature: vec![0xbb; 96],
        };
        let p = encode_metadata_proof(&b);
        assert_eq!(p.len(), 178);
        assert_eq!(p[0], version);
        assert_eq!(p[1], 1);
        let back = decode_metadata_proof(&p).unwrap();
        match back {
            ProofBundle::ThresholdForm { version: v2, group_key, group_signature } => {
                assert_eq!(v2, version);
                assert_eq!(group_key, vec![0xaa; 48]);
                assert_eq!(group_signature, vec![0xbb; 96]);
            }
            _ => panic!("wrong variant"),
        }
    }
}

#[test]
fn metadata_decode_rejects_malformed_payloads() {
    assert_eq!(decode_metadata_proof(&Vec::new()), Err(FormatError::UnknownVersion));
    assert_eq!(decode_metadata_proof(&vec![9u8; 466]), Err(FormatError::UnknownVersion));
    assert_eq!(decode_metadata_proof(&vec![0u8; 465]), Err(FormatError::BadLength));
    assert_eq!(decode_metadata_proof(&vec![0u8; 467]), Err(FormatError::BadLength));
    assert_eq!(decode_metadata_proof(&vec![1u8]), Err(FormatError::BadLength));
    let mut p = vec![1u8, 7u8];
    p.extend_from_slice(&[0; 497]);
    assert_eq!(decode_metadata_proof(&p), Err(FormatError::UnknownScheme));
    let mut p = vec![1u8, 0u8];
    p.extend_from_slice(&[0; 200]);
    assert_eq!(decode_metadata_proof(&p), Err(FormatError::BadLength));
    let mut p = vec![2u8, 1u8];
    p.extend_from_slice(&[0; 500]);
    assert_eq!(decode_metadata_proof(&p), Err(FormatError::BadLength));
}
