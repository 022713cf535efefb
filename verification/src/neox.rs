//! Header-transition verification for the chain whose approval proof rides
//! in the header payload: structural linkage checks, the committee
//! commitment, and either the address-recovery multisignature or the BLS
//! threshold signature.

use vstd::prelude::*;

use crate::bls::{bls_accepts, bls_g1_ok, bls_g2_ok, bls_pairing_check, g1_decodes, g2_decodes};
use crate::bundle::{
    append_chunks, concat_all, decode_metadata_model, decode_metadata_proof, BundleModel,
    ProofBundle,
};
use crate::bytes::{bytes_eq, sort_byte_seqs, sort_lex};
use crate::ecdsa::{ecdsa_recover, ecdsa_sig_ok, ecdsa_sig_parses, recover_signer};
use crate::hashes::{keccak256, keccak256_of};
use crate::header::{block_hash, header_hash, seal_hash, seal_hash_of, Header};

verus! {

/// The domain-separation tag of the proof-of-possession ciphersuite used
/// for hash-to-curve: the ASCII bytes of
/// `BLS_SIG_BLS12381G2_XMD:SHA-256_SSWU_RO_POP_`.
pub open spec fn bls_domain() -> Seq<u8> {
    seq![
        0x42u8, 0x4cu8, 0x53u8, 0x5fu8, 0x53u8, 0x49u8, 0x47u8, 0x5fu8, 0x42u8, 0x4cu8, 0x53u8,
        0x31u8, 0x32u8, 0x33u8, 0x38u8, 0x31u8, 0x47u8, 0x32u8, 0x5fu8, 0x58u8, 0x4du8, 0x44u8,
        0x3au8, 0x53u8, 0x48u8, 0x41u8, 0x2du8, 0x32u8, 0x35u8, 0x36u8, 0x5fu8, 0x53u8, 0x53u8,
        0x57u8, 0x55u8, 0x5fu8, 0x52u8, 0x4fu8, 0x5fu8, 0x50u8, 0x4fu8, 0x50u8, 0x5fu8,
    ]
}

/// Builds the domain-separation tag.
pub fn bls_domain_bytes() -> (r: Vec<u8>)
    ensures
        r@ == bls_domain(),
{
    let r: Vec<u8> = vec![
        0x42, 0x4c, 0x53, 0x5f, 0x53, 0x49, 0x47, 0x5f, 0x42, 0x4c, 0x53, 0x31, 0x32, 0x33, 0x38,
        0x31, 0x47, 0x32, 0x5f, 0x58, 0x4d, 0x44, 0x3a, 0x53, 0x48, 0x41, 0x2d, 0x32, 0x35, 0x36,
        0x5f, 0x53, 0x53, 0x57, 0x55, 0x5f, 0x52, 0x4f, 0x5f, 0x50, 0x4f, 0x50, 0x5f,
    ];
    proof {
        assert(r@ =~= bls_domain());
    }
    r
}

/// The smallest index at or after `from` where `x` stands in `addrs`.
pub open spec fn find_from(addrs: Seq<Seq<u8>>, x: Seq<u8>, from: int) -> Option<int>
    decreases addrs.len() - from,
{
    if from < 0 || from >= addrs.len() {
        None
    } else if addrs[from] == x {
        Some(from)
    } else {
        find_from(addrs, x, from + 1)
    }
}

/// The single-forward-cursor walk: every signer, in order, must be found in
/// `addrs` at or after the cursor, which then moves just past the match.
pub open spec fn cursor_match(signers: Seq<Seq<u8>>, addrs: Seq<Seq<u8>>, from: int) -> bool
    decreases signers.len(),
{
    if signers.len() == 0 {
        true
    } else {
        match find_from(addrs, signers[0], from) {
            Some(idx) => cursor_match(signers.drop_first(), addrs, idx + 1),
            None => false,
        }
    }
}

/// Walks the committee list with a single forward cursor, one signer at a
/// time.
fn match_sorted_signers(signers: &Vec<Vec<u8>>, addrs: &Vec<Vec<u8>>) -> (r: bool)
    ensures
        r == cursor_match(signers.deep_view(), addrs.deep_view(), 0),
{
    let ghost sdv = signers.deep_view();
    let ghost adv = addrs.deep_view();
    proof {
        assert(sdv.skip(0) =~= sdv);
    }
    let mut vi: usize = 0;
    let mut si: usize = 0;
    while si < signers.len()
        invariant
            sdv == signers.deep_view(),
            adv == addrs.deep_view(),
            si <= sdv.len(),
            vi <= adv.len(),
            cursor_match(sdv, adv, 0) == cursor_match(sdv.skip(si as int), adv, vi as int),
        decreases sdv.len() - si,
    {
        let ghost vi0 = vi as int;
        let mut found = false;
        while vi < addrs.len() && !found
            invariant
                sdv == signers.deep_view(),
                adv == addrs.deep_view(),
                si < sdv.len(),
                vi0 <= vi as int <= adv.len(),
                !found ==> find_from(adv, sdv[si as int], vi0) == find_from(
                    adv,
                    sdv[si as int],
                    vi as int,
                ),
                found ==> find_from(adv, sdv[si as int], vi0) == Some(vi as int - 1),
            decreases adv.len() - vi,
        {
            proof {
                assert(addrs@[vi as int].deep_view() =~= addrs@[vi as int]@);
                assert(signers@[si as int].deep_view() =~= signers@[si as int]@);
            }
            if bytes_eq(&addrs[vi], &signers[si]) {
                found = true;
                proof {
                    assert(adv[vi as int] == sdv[si as int]);
                }
            } else {
                proof {
                    assert(adv[vi as int] != sdv[si as int]);
                }
            }
            vi += 1;
        }
        if !found {
            proof {
                assert(vi as int == adv.len());
                assert(find_from(adv, sdv[si as int], vi as int) is None);
                assert(sdv.skip(si as int).len() > 0);
                assert(sdv.skip(si as int)[0] == sdv[si as int]);
                assert(!cursor_match(sdv.skip(si as int), adv, vi0));
            }
            return false;
        }
        proof {
            assert(sdv.skip(si as int)[0] == sdv[si as int]);
            assert(sdv.skip(si as int).drop_first() =~= sdv.skip(si as int + 1));
            assert(cursor_match(sdv.skip(si as int), adv, vi0) == cursor_match(
                sdv.skip(si as int + 1),
                adv,
                vi as int,
            ));
        }
        si += 1;
    }
    proof {
        assert(sdv.skip(sdv.len() as int) =~= Seq::<Seq<u8>>::empty());
        assert(cursor_match(sdv.skip(sdv.len() as int), adv, vi as int));
    }
    true
}

/// The signatures the matcher looks at: the first five, as the wire format
/// carries no more.
pub open spec fn taken_sigs(sigs: Seq<Seq<u8>>) -> Seq<Seq<u8>> {
    if sigs.len() <= 5 {
        sigs
    } else {
        sigs.take(5)
    }
}

/// Every signature parses and recovers to some signer.
pub open spec fn all_sigs_recover(hash: Seq<u8>, sigs: Seq<Seq<u8>>) -> bool {
    forall|i: int|
        0 <= i < sigs.len() ==> ecdsa_sig_ok(#[trigger] sigs[i]) && ecdsa_recover(hash, sigs[i])
            is Some
}

/// The signers recovered from the signatures, in signature order.
pub open spec fn recovered_signers(hash: Seq<u8>, sigs: Seq<Seq<u8>>) -> Seq<Seq<u8>>
    recommends
        all_sigs_recover(hash, sigs),
{
    Seq::new(sigs.len(), |i: int| ecdsa_recover(hash, sigs[i]).unwrap())
}

/// The address-recovery quorum rule: every signature recovers a signer, and
/// the signers, sorted ascending, appear along the committee list under a
/// single forward cursor.
pub open spec fn multi_sigs_valid(hash: Seq<u8>, sigs: Seq<Seq<u8>>, addrs: Seq<Seq<u8>>) -> bool {
    let tk = taken_sigs(sigs);
    &&& all_sigs_recover(hash, tk)
    &&& cursor_match(sort_lex(recovered_signers(hash, tk)), addrs, 0)
}

/// Checks the address-recovery multisignature: recovers a signer from each
/// signature over the given digest, sorts the signers ascending, and
/// requires the sorted signers to appear along the committee list in order.
/// A signature that does not parse or recover rejects the whole check.
pub fn verify_multi_sigs(hash: &Vec<u8>, sigs: &Vec<Vec<u8>>, addrs: &Vec<Vec<u8>>) -> (r: bool)
    requires
        hash@.len() == 32,
    ensures
        r == multi_sigs_valid(hash@, sigs.deep_view(), addrs.deep_view()),
{
    let n: usize = if sigs.len() < 5 {
        sigs.len()
    } else {
        5
    };
    let ghost tk = taken_sigs(sigs.deep_view());
    proof {
        assert(tk.len() == n);
        assert(forall|j: int| 0 <= j < tk.len() ==> tk[j] == sigs.deep_view()[j]);
    }
    let mut signers: Vec<Vec<u8>> = Vec::new();
    let mut i: usize = 0;
    while i < n
        invariant
            i <= n,
            n == tk.len(),
            n <= sigs@.len(),
            hash@.len() == 32,
            tk == taken_sigs(sigs.deep_view()),
            forall|j: int| 0 <= j < tk.len() ==> tk[j] == sigs.deep_view()[j],
            forall|j: int|
                0 <= j < i ==> ecdsa_sig_ok(#[trigger] tk[j]) && ecdsa_recover(hash@, tk[j])
                    is Some,
            signers.deep_view() =~= Seq::new(
                i as nat,
                |j: int| ecdsa_recover(hash@, tk[j]).unwrap(),
            ),
        decreases n - i,
    {
        proof {
            assert(sigs@[i as int].deep_view() =~= sigs@[i as int]@);
            assert(tk[i as int] == sigs@[i as int]@);
        }
        if !ecdsa_sig_parses(&sigs[i]) {
            proof {
                assert(!ecdsa_sig_ok(tk[i as int]));
            }
            return false;
        }
        match recover_signer(hash, &sigs[i]) {
            Some(a) => {
                let ghost s_old = signers.deep_view();
                proof {
                    assert(a.deep_view() =~= a@);
                }
                signers.push(a);
                proof {
                    assert(signers.deep_view() =~= s_old.push(a@));
                    assert(ecdsa_recover(hash@, tk[i as int]) == Some(a@));
                    assert(signers.deep_view() =~= Seq::new(
                        (i + 1) as nat,
                        |j: int| ecdsa_recover(hash@, tk[j]).unwrap(),
                    ));
                }
            },
            None => {
                proof {
                    assert(ecdsa_recover(hash@, tk[i as int]) is None);
                }
                return false;
            },
        }
        i += 1;
    }
    proof {
        assert(all_sigs_recover(hash@, tk));
        assert(signers.deep_view() =~= recovered_signers(hash@, tk));
    }
    let sorted = sort_byte_seqs(&signers);
    match_sorted_signers(&sorted, addrs)
}

/// The bytes whose digest must equal the parent's committee commitment: the
/// committee addresses as sliced from the payload, or the group public key.
pub open spec fn committee_commitment(m: BundleModel) -> Seq<u8> {
    match m {
        BundleModel::Recovered { addrs, .. } => concat_all(addrs),
        BundleModel::Threshold { key, .. } => key,
        BundleModel::Script { .. } => Seq::empty(),
    }
}

/// The whole transition rule: hash linkage, height and timestamp
/// monotonicity, a decodable payload, the committee commitment, and the
/// signature check of the payload's form over the seal hash.
pub open spec fn update_valid(parent: Header, current: Header) -> bool {
    &&& current.parent_hash@ == block_hash(parent)
    &&& current.number as int == parent.number as int + 1
    &&& current.timestamp > parent.timestamp
    &&& match decode_metadata_model(current.extra_data@) {
        Some(m) => {
            &&& keccak256_of(committee_commitment(m)) == parent.mix_hash@
            &&& match m {
                BundleModel::Recovered { version, addrs, sigs } => multi_sigs_valid(
                    seal_hash_of(current),
                    sigs,
                    addrs,
                ),
                BundleModel::Threshold { version, key, sig } => {
                    &&& bls_g1_ok(key)
                    &&& bls_g2_ok(sig)
                    &&& bls_accepts(key, sig, version == 1, seal_hash_of(current), bls_domain())
                },
                BundleModel::Script { .. } => false,
            }
        },
        None => false,
    }
}

/// A payload that decodes always leaves the header seal-encodable: its tag
/// is recognized and it is at least as long as its hashable prefix.
proof fn lemma_decodable_is_sealable(h: Header)
    requires
        decode_metadata_model(h.extra_data@) is Some,
    ensures
        crate::header::seal_encodable(h),
{
}

/// Decides whether `current` is a legitimate successor of `parent`. Every
/// structural fault, malformed payload, commitment mismatch or failed
/// signature check yields `false`; nothing panics on adversarial input.
pub fn verify_update_header(parent: Header, current: Header) -> (r: bool)
    ensures
        r == update_valid(parent, current),
{
    let parent_hash = header_hash(&parent);
    if !bytes_eq(&current.parent_hash, &parent_hash) {
        return false;
    }
    if parent.number == u64::MAX || current.number != parent.number + 1 {
        return false;
    }
    if current.timestamp <= parent.timestamp {
        return false;
    }
    let bundle = match decode_metadata_proof(&current.extra_data) {
        Ok(b) => b,
        Err(_) => {
            return false;
        },
    };
    proof {
        lemma_decodable_is_sealable(current);
    }
    match &bundle {
        ProofBundle::RecoveredForm { version, addresses, signatures } => {
            let mut addr_bytes: Vec<u8> = Vec::new();
            append_chunks(&mut addr_bytes, addresses);
            proof {
                assert(Seq::<u8>::empty() + concat_all(addresses.deep_view()) =~= concat_all(
                    addresses.deep_view(),
                ));
            }
            let exact = keccak256(&addr_bytes);
            if !bytes_eq(&exact, &parent.mix_hash) {
                return false;
            }
            let seal = match seal_hash(&current) {
                Ok(h) => h,
                Err(_) => {
                    proof {
                        assert(false);
                    }
                    return false;
                },
            };
            verify_multi_sigs(&seal, signatures, addresses)
        },
        ProofBundle::ThresholdForm { version, group_key, group_signature } => {
            let exact = keccak256(group_key);
            if !bytes_eq(&exact, &parent.mix_hash) {
                return false;
            }
            if !g1_decodes(group_key) {
                return false;
            }
            if !g2_decodes(group_signature) {
                return false;
            }
            let seal = match seal_hash(&current) {
                Ok(h) => h,
                Err(_) => {
                    proof {
                        assert(false);
                    }
                    return false;
                },
            };
            let dst = bls_domain_bytes();
            bls_pairing_check(group_key, group_signature, *version == 1, &seal, &dst)
        },
        ProofBundle::ScriptForm { .. } => {
            proof {
                assert(false);
            }
            false
        },
    }
}

/// A height that does not advance by exactly one is rejected, whatever the
/// payload carries.
pub proof fn lemma_index_gap_rejects(parent: Header, current: Header)
    requires
        current.number as int != parent.number as int + 1,
    ensures
        !update_valid(parent, current),
{
}

/// A timestamp that does not strictly increase is rejected, whatever the
/// payload carries.
pub proof fn lemma_timestamp_rejects(parent: Header, current: Header)
    requires
        current.timestamp <= parent.timestamp,
    ensures
        !update_valid(parent, current),
{
}

} // verus!
