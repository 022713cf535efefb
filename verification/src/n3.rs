//! Header-transition verification for the chain whose approval proof is the
//! script-based multisignature carried in a block witness: structural
//! linkage checks, the script-hash committee commitment, and the bipartite
//! key-signature matching.

use vstd::prelude::*;

use crate::bundle::{decode_script_model, decode_script_proof, BundleModel, ProofBundle};
use crate::bytes::bytes_eq;
use crate::ecdsa::{
    p256_key_ok, p256_key_parses, p256_sig_ok, p256_sig_parses, p256_verifies, p256_verify,
};
use crate::hashes::{hash160, hash160_of};
use crate::SIG_THRESHOLD;

verus! {

/// A block witness: the two bytecode buffers that carry the committee's
/// approval.
#[derive(Clone)]
pub struct Witness {
    /// The invocation script, holding the signatures.
    pub invocation: Vec<u8>,
    /// The verification script, holding the committee keys.
    pub verification: Vec<u8>,
}

/// A block of the script-proof chain, with every field the verifier reads
/// already in plain byte or integer form.
#[derive(Clone)]
pub struct Block {
    /// The block's own hash; it is the digest the committee signs.
    pub hash: Vec<u8>,
    /// Hash of the preceding block.
    pub prev_block_hash: Vec<u8>,
    /// Block height.
    pub index: u32,
    /// Timestamp in milliseconds; strictly increasing along the chain.
    pub time: u64,
    /// Script-hash commitment to the committee that approves the next block.
    pub next_consensus: Vec<u8>,
    /// The block's witnesses; the first one carries the consensus proof.
    pub witnesses: Vec<Witness>,
}

impl Block {
    /// Every fixed-width field has its protocol width.
    pub open spec fn wf(self) -> bool {
        &&& self.hash@.len() == 32
        &&& self.prev_block_hash@.len() == 32
        &&& self.next_consensus@.len() == 20
    }
}

/// Every key parses as a curve point.
pub open spec fn all_keys_parse(keys: Seq<Seq<u8>>) -> bool {
    forall|i: int| 0 <= i < keys.len() ==> p256_key_ok(#[trigger] keys[i])
}

/// Every signature parses.
pub open spec fn all_script_sigs_parse(sigs: Seq<Seq<u8>>) -> bool {
    forall|i: int| 0 <= i < sigs.len() ==> p256_sig_ok(#[trigger] sigs[i])
}

/// Whether some signature verifies under the key.
pub open spec fn key_satisfied(key: Seq<u8>, msg: Seq<u8>, sigs: Seq<Seq<u8>>) -> bool {
    exists|j: int| 0 <= j < sigs.len() && p256_verifies(key, msg, #[trigger] sigs[j])
}

/// How many keys have some signature that verifies under them. Each key
/// counts at most once, however many signatures match it.
pub open spec fn satisfied_count(keys: Seq<Seq<u8>>, msg: Seq<u8>, sigs: Seq<Seq<u8>>) -> nat
    decreases keys.len(),
{
    if keys.len() == 0 {
        0
    } else {
        satisfied_count(keys.drop_last(), msg, sigs) + if key_satisfied(keys.last(), msg, sigs) {
            1nat
        } else {
            0nat
        }
    }
}

/// The bipartite quorum rule: all keys and signatures parse, and at least
/// five of the seven keys are satisfied by some signature. Which signature
/// satisfies which key is deliberately left free.
pub open spec fn multi_sigs_quorum(msg: Seq<u8>, keys: Seq<Seq<u8>>, sigs: Seq<Seq<u8>>) -> bool {
    &&& all_keys_parse(keys)
    &&& all_script_sigs_parse(sigs)
    &&& satisfied_count(keys, msg, sigs) >= SIG_THRESHOLD
}

/// Counts the keys under which some signature verifies, and accepts when at
/// least five are satisfied. A key or signature that does not parse as
/// curve material rejects the whole check.
pub fn verify_multi_sigs(hash: &Vec<u8>, pubs: &Vec<Vec<u8>>, sigs: &Vec<Vec<u8>>) -> (r: bool)
    ensures
        r == multi_sigs_quorum(hash@, pubs.deep_view(), sigs.deep_view()),
{
    let ghost kdv = pubs.deep_view();
    let ghost sdv = sigs.deep_view();
    let mut i: usize = 0;
    while i < pubs.len()
        invariant
            kdv == pubs.deep_view(),
            i <= kdv.len(),
            forall|q: int| 0 <= q < i ==> p256_key_ok(#[trigger] kdv[q]),
        decreases kdv.len() - i,
    {
        proof {
            assert(pubs@[i as int].deep_view() =~= pubs@[i as int]@);
        }
        if !p256_key_parses(&pubs[i]) {
            proof {
                assert(!p256_key_ok(kdv[i as int]));
            }
            return false;
        }
        i += 1;
    }
    let mut j: usize = 0;
    while j < sigs.len()
        invariant
            sdv == sigs.deep_view(),
            j <= sdv.len(),
            forall|q: int| 0 <= q < j ==> p256_sig_ok(#[trigger] sdv[q]),
        decreases sdv.len() - j,
    {
        proof {
            assert(sigs@[j as int].deep_view() =~= sigs@[j as int]@);
        }
        if !p256_sig_parses(&sigs[j]) {
            proof {
                assert(!p256_sig_ok(sdv[j as int]));
            }
            return false;
        }
        j += 1;
    }
    proof {
        assert(all_keys_parse(kdv));
        assert(all_script_sigs_parse(sdv));
        assert(kdv.take(0) =~= Seq::<Seq<u8>>::empty());
    }
    let mut count: usize = 0;
    let mut k: usize = 0;
    while k < pubs.len()
        invariant
            kdv == pubs.deep_view(),
            sdv == sigs.deep_view(),
            k <= kdv.len(),
            count <= k,
            all_keys_parse(kdv),
            all_script_sigs_parse(sdv),
            count == satisfied_count(kdv.take(k as int), hash@, sdv),
        decreases kdv.len() - k,
    {
        proof {
            assert(pubs@[k as int].deep_view() =~= pubs@[k as int]@);
            assert(kdv[k as int] == pubs@[k as int]@);
        }
        let mut m: usize = 0;
        let mut hit = false;
        while m < sigs.len() && !hit
            invariant
                kdv == pubs.deep_view(),
                sdv == sigs.deep_view(),
                k < kdv.len(),
                kdv[k as int] == pubs@[k as int]@,
                m <= sdv.len(),
                all_keys_parse(kdv),
                all_script_sigs_parse(sdv),
                !hit ==> forall|q: int|
                    0 <= q < m ==> !p256_verifies(kdv[k as int], hash@, #[trigger] sdv[q]),
                hit ==> key_satisfied(kdv[k as int], hash@, sdv),
            decreases sdv.len() - m,
        {
            proof {
                assert(sigs@[m as int].deep_view() =~= sigs@[m as int]@);
                assert(sdv[m as int] == sigs@[m as int]@);
            }
            if p256_verify(&pubs[k], hash, &sigs[m]) {
                hit = true;
                proof {
                    assert(p256_verifies(kdv[k as int], hash@, sdv[m as int]));
                }
            }
            m += 1;
        }
        proof {
            if !hit {
                assert(!key_satisfied(kdv[k as int], hash@, sdv));
            }
            assert(kdv.take(k + 1).drop_last() =~= kdv.take(k as int));
            assert(kdv.take(k + 1).last() == kdv[k as int]);
        }
        if hit {
            count += 1;
        }
        k += 1;
    }
    proof {
        assert(kdv.take(kdv.len() as int) =~= kdv);
    }
    count >= SIG_THRESHOLD
}

/// The whole transition rule: hash linkage, height and timestamp
/// monotonicity, a present witness, the script-hash committee commitment,
/// decodable witness scripts, and the bipartite quorum over the block hash.
pub open spec fn update_valid(parent: Block, current: Block) -> bool {
    &&& current.prev_block_hash@ == parent.hash@
    &&& current.index as int == parent.index as int + 1
    &&& current.time > parent.time
    &&& current.witnesses@.len() > 0
    &&& hash160_of(current.witnesses@[0].verification@) == parent.next_consensus@
    &&& match decode_script_model(
        current.witnesses@[0].verification@,
        current.witnesses@[0].invocation@,
    ) {
        Some(BundleModel::Script { keys, sigs }) => multi_sigs_quorum(current.hash@, keys, sigs),
        _ => false,
    }
}

/// Decides whether `current` is a legitimate successor of `parent`. Every
/// structural fault, malformed script, commitment mismatch or failed quorum
/// yields `false`; nothing panics on adversarial input.
pub fn verify_update_header(parent: Block, current: Block) -> (r: bool)
    ensures
        r == update_valid(parent, current),
{
    if !bytes_eq(&current.prev_block_hash, &parent.hash) {
        return false;
    }
    if parent.index == u32::MAX || current.index != parent.index + 1 {
        return false;
    }
    if current.time <= parent.time {
        return false;
    }
    if current.witnesses.len() == 0 {
        return false;
    }
    let w = &current.witnesses[0];
    let commit = hash160(&w.verification);
    if !bytes_eq(&commit, &parent.next_consensus) {
        return false;
    }
    let bundle = match decode_script_proof(&w.verification, &w.invocation) {
        Ok(b) => b,
        Err(_) => {
            return false;
        },
    };
    match &bundle {
        ProofBundle::ScriptForm { pubkeys, signatures } => {
            verify_multi_sigs(&current.hash, pubkeys, signatures)
        },
        _ => {
            proof {
                assert(false);
            }
            false
        },
    }
}

/// A header pair that links correctly, advances height by one and moves
/// time forward, whose witness commits to the expected committee, and whose
/// scripts decode to a committee with a quorum of at least five satisfied
/// keys, is accepted.
pub proof fn lemma_script_quorum_accepts(parent: Block, current: Block)
    requires
        current.prev_block_hash@ == parent.hash@,
        current.index as int == parent.index as int + 1,
        current.time > parent.time,
        current.witnesses@.len() > 0,
        hash160_of(current.witnesses@[0].verification@) == parent.next_consensus@,
        decode_script_model(
            current.witnesses@[0].verification@,
            current.witnesses@[0].invocation@,
        ) matches Some(BundleModel::Script { keys, sigs }) && multi_sigs_quorum(
            current.hash@,
            keys,
            sigs,
        ),
    ensures
        update_valid(parent, current),
{
}

/// A height that does not advance by exactly one is rejected, whatever the
/// witness carries.
pub proof fn lemma_index_gap_rejects(parent: Block, current: Block)
    requires
        current.index as int != parent.index as int + 1,
    ensures
        !update_valid(parent, current),
{
}

/// A timestamp that does not strictly increase is rejected, whatever the
/// witness carries.
pub proof fn lemma_timestamp_rejects(parent: Block, current: Block)
    requires
        current.time <= parent.time,
    ensures
        !update_valid(parent, current),
{
}

} // verus!
