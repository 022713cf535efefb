//! The committee's approval proof in its three wire encodings: the
//! script-based multisignature (two bytecode buffers), the address-recovery
//! multisignature and the BLS threshold signature (both carried in the
//! header's payload field). Decoding validates the fixed grammar exactly;
//! encoding rebuilds it, and decoding an encoded bundle gives the bundle
//! back.

use vstd::prelude::*;

use crate::bytes::{copy_range, push_all};
use crate::{FormatError, COMMITTEE_SIZE, SIG_THRESHOLD};

verus! {

/// Bytecode opcode that pushes the following length-prefixed data item.
pub const OP_PUSHDATA1: u8 = 0x0C;

/// Bytecode opcode that pushes the constant five: the signature threshold.
pub const OP_PUSH5: u8 = 0x15;

/// Bytecode opcode that pushes the constant seven: the committee size.
pub const OP_PUSH7: u8 = 0x17;

/// Bytecode opcode that invokes an interop service.
pub const OP_SYSCALL: u8 = 0x41;

/// Length of a public key item in the verification script.
pub const PUBKEY_LEN: usize = 35;

/// Length of a signature item in the invocation script.
pub const SCRIPT_SIGNATURE_LEN: usize = 64;

/// Length of one key group: push opcode, length byte, key.
pub const PUBKEY_DATA_LEN: usize = PUBKEY_LEN + 2;

/// Length of one signature group: push opcode, length byte, signature.
pub const SIGNATURE_DATA_LEN: usize = SCRIPT_SIGNATURE_LEN + 2;

/// Exact length of a verification script: seven key groups framed by the
/// threshold push, the size push, and the check-multisig syscall.
pub const VERIFICATION_SCRIPT_LEN: usize = 7 * PUBKEY_DATA_LEN + 7;

/// Exact length of an invocation script: five signature groups.
pub const INVOCATION_SCRIPT_LEN: usize = 5 * SIGNATURE_DATA_LEN;

/// Length of a committee member address.
pub const ADDRESS_LEN: usize = 20;

/// Length of a recoverable ECDSA signature.
pub const ECDSA_SIGNATURE_LEN: usize = 65;

/// Length of a compressed BLS group public key.
pub const BLS_PUBLIC_KEY_LEN: usize = 48;

/// Length of a compressed BLS group signature.
pub const BLS_SIGNATURE_LEN: usize = 96;

/// Payload length of the legacy address-recovery encoding.
pub const V0_PAYLOAD_LEN: usize = crate::header::HASHABLE_EXTRA_V0_LEN + 7 * ADDRESS_LEN + 5
    * ECDSA_SIGNATURE_LEN;

/// Payload length of the tagged address-recovery encoding.
pub const V1_ECDSA_PAYLOAD_LEN: usize = crate::header::HASHABLE_EXTRA_V1_LEN + 7 * ADDRESS_LEN + 5
    * ECDSA_SIGNATURE_LEN;

/// Payload length of the tagged threshold encoding.
pub const V1_BLS_PAYLOAD_LEN: usize = crate::header::HASHABLE_EXTRA_V1_LEN + BLS_PUBLIC_KEY_LEN
    + BLS_SIGNATURE_LEN;

/// Scheme discriminant of the address-recovery variant under a tagged
/// version.
pub const SCHEME_ECDSA: u8 = 0;

/// Scheme discriminant of the threshold variant under a tagged version.
pub const SCHEME_THRESHOLD: u8 = 1;

/// The four-byte identifier of the check-multisig interop service, as it
/// stands in a verification script: the first four bytes of the SHA-256
/// digest of the service name `System.Crypto.CheckMultisig`.
pub open spec fn check_multisig_id() -> Seq<u8> {
    seq![0x9eu8, 0xd0u8, 0xdcu8, 0x3au8]
}

/// Builds the check-multisig service identifier.
pub fn check_multisig_id_bytes() -> (r: Vec<u8>)
    ensures
        r@ == check_multisig_id(),
{
    let r: Vec<u8> = vec![0x9e, 0xd0, 0xdc, 0x3a];
    proof {
        assert(r@ =~= check_multisig_id());
    }
    r
}

/// A decoded approval proof, one variant per wire encoding.
#[derive(Clone, Debug, PartialEq)]
pub enum ProofBundle {
    /// The script-based multisignature: seven public keys out of the
    /// verification script, five signatures out of the invocation script.
    ScriptForm {
        /// The seven committee public keys, in script order.
        pubkeys: Vec<Vec<u8>>,
        /// The five signatures, in script order.
        signatures: Vec<Vec<u8>>,
    },
    /// The address-recovery multisignature out of the header payload.
    RecoveredForm {
        /// The payload version tag this bundle was read from.
        version: u8,
        /// The seven committee addresses, in committee order.
        addresses: Vec<Vec<u8>>,
        /// The five recoverable signatures.
        signatures: Vec<Vec<u8>>,
    },
    /// The BLS threshold signature out of the header payload.
    ThresholdForm {
        /// The payload version tag; under the first tag the signature point
        /// is stored negated.
        version: u8,
        /// The compressed group public key.
        group_key: Vec<u8>,
        /// The compressed group signature.
        group_signature: Vec<u8>,
    },
}

/// The mathematical shadow of a bundle: every buffer as a sequence.
pub enum BundleModel {
    /// Model of the script-based form.
    Script { keys: Seq<Seq<u8>>, sigs: Seq<Seq<u8>> },
    /// Model of the address-recovery form.
    Recovered { version: u8, addrs: Seq<Seq<u8>>, sigs: Seq<Seq<u8>> },
    /// Model of the threshold form.
    Threshold { version: u8, key: Seq<u8>, sig: Seq<u8> },
}

impl View for ProofBundle {
    type V = BundleModel;

    open spec fn view(&self) -> BundleModel {
        match self {
            ProofBundle::ScriptForm { pubkeys, signatures } => BundleModel::Script {
                keys: pubkeys.deep_view(),
                sigs: signatures.deep_view(),
            },
            ProofBundle::RecoveredForm { version, addresses, signatures } => BundleModel::Recovered {
                version: *version,
                addrs: addresses.deep_view(),
                sigs: signatures.deep_view(),
            },
            ProofBundle::ThresholdForm { version, group_key, group_signature } => BundleModel::Threshold {
                version: *version,
                key: group_key@,
                sig: group_signature@,
            },
        }
    }
}

/// Every element of `s` has length `sz`.
pub open spec fn all_len(s: Seq<Seq<u8>>, sz: nat) -> bool {
    forall|i: int| 0 <= i < s.len() ==> #[trigger] s[i].len() == sz
}

impl BundleModel {
    /// The counts and widths each variant owes to the wire format.
    pub open spec fn wf(self) -> bool {
        match self {
            BundleModel::Script { keys, sigs } => {
                &&& keys.len() == COMMITTEE_SIZE
                &&& all_len(keys, PUBKEY_LEN as nat)
                &&& sigs.len() == SIG_THRESHOLD
                &&& all_len(sigs, SCRIPT_SIGNATURE_LEN as nat)
            },
            BundleModel::Recovered { version, addrs, sigs } => {
                &&& (version == 0 || version == 1 || version == 2)
                &&& addrs.len() == COMMITTEE_SIZE
                &&& all_len(addrs, ADDRESS_LEN as nat)
                &&& sigs.len() == SIG_THRESHOLD
                &&& all_len(sigs, ECDSA_SIGNATURE_LEN as nat)
            },
            BundleModel::Threshold { version, key, sig } => {
                &&& (version == 1 || version == 2)
                &&& key.len() == BLS_PUBLIC_KEY_LEN
                &&& sig.len() == BLS_SIGNATURE_LEN
            },
        }
    }
}

/// The concatenation of a sequence of byte strings.
pub open spec fn concat_all(items: Seq<Seq<u8>>) -> Seq<u8>
    decreases items.len(),
{
    if items.len() == 0 {
        Seq::empty()
    } else {
        items[0] + concat_all(items.drop_first())
    }
}

/// Appending one more item extends the concatenation at its end.
pub proof fn lemma_concat_all_push(items: Seq<Seq<u8>>, x: Seq<u8>)
    ensures
        concat_all(items.push(x)) == concat_all(items) + x,
    decreases items.len(),
{
    if items.len() == 0 {
        assert(concat_all(Seq::<Seq<u8>>::empty()) =~= Seq::<u8>::empty());
        assert(items.push(x).drop_first() =~= Seq::<Seq<u8>>::empty());
        assert(items.push(x)[0] == x);
        assert(concat_all(items.push(x)) =~= concat_all(items) + x);
    } else {
        assert(items.push(x).drop_first() =~= items.drop_first().push(x));
        lemma_concat_all_push(items.drop_first(), x);
        crate::bytes::lemma_add_assoc(items[0], concat_all(items.drop_first()), x);
    }
}

/// Length of a concatenation of equal-width items.
pub proof fn lemma_concat_all_len(items: Seq<Seq<u8>>, sz: nat)
    requires
        all_len(items, sz),
    ensures
        concat_all(items).len() == items.len() * sz,
    decreases items.len(),
{
    if items.len() == 0 {
    } else {
        assert(items[0].len() == sz);
        assert(all_len(items.drop_first(), sz));
        lemma_concat_all_len(items.drop_first(), sz);
        assert(sz + (items.len() - 1) * sz == items.len() * sz) by (nonlinear_arith);
    }
}

/// Each byte of a concatenation of equal-width items comes from the item at
/// the byte's position divided by the width.
pub proof fn lemma_concat_all_index(items: Seq<Seq<u8>>, sz: nat, k: int)
    requires
        all_len(items, sz),
        sz > 0,
        0 <= k < items.len() * sz,
    ensures
        concat_all(items)[k] == items[k / sz as int][k % sz as int],
    decreases items.len(),
{
    lemma_concat_all_len(items, sz);
    if items.len() > 0 {
        assert(items[0].len() == sz);
    }
    if items.len() == 0 {
        assert(false) by (nonlinear_arith)
            requires
                0 <= k < items.len() * sz,
                items.len() == 0,
        ;
    } else if k < sz {
        assert(k / sz as int == 0 && k % sz as int == k) by (nonlinear_arith)
            requires
                0 <= k < sz,
        ;
    } else {
        assert(all_len(items.drop_first(), sz));
        assert((items.len() - 1) * sz == items.len() * sz - sz) by (nonlinear_arith);
        lemma_concat_all_index(items.drop_first(), sz, k - sz);
        assert((k - sz) / sz as int == k / sz as int - 1 && (k - sz) % sz as int == k % sz as int)
            by (nonlinear_arith)
            requires
                sz > 0,
                k >= sz,
        ;
        assert(1 <= k / (sz as int) && k / (sz as int) < items.len()) by (nonlinear_arith)
            requires
                sz > 0,
                sz <= k < items.len() * sz,
        ;
        assert(items.drop_first()[k / sz as int - 1] == items[k / sz as int]);
    }
}

/// A sequence of `n` zero bytes.
pub open spec fn zeros(n: nat) -> Seq<u8> {
    Seq::new(n, |i: int| 0u8)
}

/// The hashable prefix that the metadata encoder emits: the version tag
/// alone under the legacy version, the version tag, the scheme byte and
/// thirty-two zero bytes of round metadata under a tagged version.
pub open spec fn metadata_prefix(version: u8, scheme: u8) -> Seq<u8> {
    if version == 0 {
        seq![0u8]
    } else {
        seq![version, scheme] + zeros(32)
    }
}

/// The payload bytes of a metadata-carried bundle.
pub open spec fn encode_metadata_model(m: BundleModel) -> Seq<u8>
    recommends
        m.wf(),
        !(m is Script),
{
    match m {
        BundleModel::Recovered { version, addrs, sigs } => metadata_prefix(version, SCHEME_ECDSA)
            + concat_all(addrs) + concat_all(sigs),
        BundleModel::Threshold { version, key, sig } => metadata_prefix(version, SCHEME_THRESHOLD)
            + key + sig,
        BundleModel::Script { .. } => Seq::empty(),
    }
}

/// The `n` slices of width `sz` of `p` starting at `base`.
pub open spec fn chunks(p: Seq<u8>, base: int, n: int, sz: int) -> Seq<Seq<u8>> {
    Seq::new(n as nat, |i: int| p.subrange(base + i * sz, base + (i + 1) * sz))
}

/// What a payload decodes to, if anything: the version tag picks the
/// variant, the scheme byte (under a tagged version) picks the form, and
/// the length must match the form exactly.
pub open spec fn decode_metadata_model(p: Seq<u8>) -> Option<BundleModel> {
    if p.len() == 0 {
        None
    } else if p[0] == 0 {
        if p.len() == V0_PAYLOAD_LEN {
            Some(
                BundleModel::Recovered {
                    version: 0,
                    addrs: chunks(p, 1, 7, ADDRESS_LEN as int),
                    sigs: chunks(p, 141, 5, ECDSA_SIGNATURE_LEN as int),
                },
            )
        } else {
            None
        }
    } else if p[0] == 1 || p[0] == 2 {
        if p.len() < 2 {
            None
        } else if p[1] == SCHEME_ECDSA {
            if p.len() == V1_ECDSA_PAYLOAD_LEN {
                Some(
                    BundleModel::Recovered {
                        version: p[0],
                        addrs: chunks(p, 34, 7, ADDRESS_LEN as int),
                        sigs: chunks(p, 174, 5, ECDSA_SIGNATURE_LEN as int),
                    },
                )
            } else {
                None
            }
        } else if p[1] == SCHEME_THRESHOLD {
            if p.len() == V1_BLS_PAYLOAD_LEN {
                Some(
                    BundleModel::Threshold {
                        version: p[0],
                        key: p.subrange(34, 82),
                        sig: p.subrange(82, 178),
                    },
                )
            } else {
                None
            }
        } else {
            None
        }
    } else {
        None
    }
}

/// The exact fault when a payload does not decode.
pub open spec fn metadata_error(p: Seq<u8>) -> FormatError
    recommends
        decode_metadata_model(p) is None,
{
    if p.len() == 0 {
        FormatError::UnknownVersion
    } else if p[0] == 0 {
        FormatError::BadLength
    } else if p[0] == 1 || p[0] == 2 {
        if p.len() < 2 {
            FormatError::BadLength
        } else if p[1] == SCHEME_ECDSA || p[1] == SCHEME_THRESHOLD {
            FormatError::BadLength
        } else {
            FormatError::UnknownScheme
        }
    } else {
        FormatError::UnknownVersion
    }
}

/// Reads `n` consecutive slices of width `sz` out of `p`, starting at
/// `base`.
fn read_chunks(p: &Vec<u8>, base: usize, n: usize, sz: usize) -> (r: Vec<Vec<u8>>)
    requires
        base + n * sz <= p@.len(),
        sz > 0,
    ensures
        r.deep_view() == chunks(p@, base as int, n as int, sz as int),
        r@.len() == n,
{
    let total = p.len();
    let mut r: Vec<Vec<u8>> = Vec::new();
    let mut i: usize = 0;
    while i < n
        invariant
            i <= n,
            base + n * sz <= p@.len(),
            p@.len() == total,
            sz > 0,
            r@.len() == i,
            r.deep_view() =~= chunks(p@, base as int, i as int, sz as int),
        decreases n - i,
    {
        proof {
            assert(base + (i + 1) * sz <= base + n * sz) by (nonlinear_arith)
                requires
                    i < n,
                    sz > 0,
            ;
            assert(i * sz + sz == (i + 1) * sz) by (nonlinear_arith);
            assert(0 <= i * sz) by (nonlinear_arith)
                requires
                    i >= 0,
                    sz > 0,
            ;
        }
        let chunk = copy_range(p, base + i * sz, base + (i + 1) * sz);
        let ghost r_old = r.deep_view();
        proof {
            assert(chunk.deep_view() =~= chunk@);
        }
        r.push(chunk);
        proof {
            assert(r.deep_view() =~= r_old.push(chunk@));
            assert(r.deep_view() =~= chunks(p@, base as int, i + 1, sz as int));
        }
        i += 1;
    }
    proof {
        assert(r.deep_view() =~= chunks(p@, base as int, n as int, sz as int));
    }
    r
}

/// Decodes a header payload into its bundle. Succeeds exactly on the
/// payloads that `decode_metadata_model` accepts, and then returns their
/// model; otherwise reports the exact fault.
pub fn decode_metadata_proof(p: &Vec<u8>) -> (r: Result<ProofBundle, FormatError>)
    ensures
        match r {
            Ok(b) => decode_metadata_model(p@) == Some(b@) && b@.wf() && !(b@ is Script),
            Err(e) => decode_metadata_model(p@) is None && e == metadata_error(p@),
        },
{
    if p.len() == 0 {
        return Err(FormatError::UnknownVersion);
    }
    let tag = p[0];
    if tag == 0 {
        if p.len() != V0_PAYLOAD_LEN {
            return Err(FormatError::BadLength);
        }
        let addresses = read_chunks(p, 1, COMMITTEE_SIZE, ADDRESS_LEN);
        let signatures = read_chunks(p, 141, SIG_THRESHOLD, ECDSA_SIGNATURE_LEN);
        let b = ProofBundle::RecoveredForm { version: 0, addresses, signatures };
        proof {
            assert(decode_metadata_model(p@) == Some(b@));
        }
        Ok(b)
    } else if tag == 1 || tag == 2 {
        if p.len() < 2 {
            return Err(FormatError::BadLength);
        }
        let scheme = p[1];
        if scheme == SCHEME_ECDSA {
            if p.len() != V1_ECDSA_PAYLOAD_LEN {
                return Err(FormatError::BadLength);
            }
            let addresses = read_chunks(p, 34, COMMITTEE_SIZE, ADDRESS_LEN);
            let signatures = read_chunks(p, 174, SIG_THRESHOLD, ECDSA_SIGNATURE_LEN);
            let b = ProofBundle::RecoveredForm { version: tag, addresses, signatures };
            proof {
                assert(decode_metadata_model(p@) == Some(b@));
            }
            Ok(b)
        } else if scheme == SCHEME_THRESHOLD {
            if p.len() != V1_BLS_PAYLOAD_LEN {
                return Err(FormatError::BadLength);
            }
            let group_key = copy_range(p, 34, 82);
            let group_signature = copy_range(p, 82, 178);
            let b = ProofBundle::ThresholdForm { version: tag, group_key, group_signature };
            proof {
                assert(decode_metadata_model(p@) == Some(b@));
            }
            Ok(b)
        } else {
            Err(FormatError::UnknownScheme)
        }
    } else {
        Err(FormatError::UnknownVersion)
    }
}

/// Appends every item of `items` to `out`.
pub fn append_chunks(out: &mut Vec<u8>, items: &Vec<Vec<u8>>)
    ensures
        final(out)@ == old(out)@ + concat_all(items.deep_view()),
{
    let ghost out0: Seq<u8> = out@;
    let mut i: usize = 0;
    while i < items.len()
        invariant
            i <= items@.len(),
            out@ == out0 + concat_all(items.deep_view().subrange(0, i as int)),
        decreases items@.len() - i,
    {
        proof {
            assert(concat_all(items.deep_view().subrange(0, 0)) =~= Seq::<u8>::empty());
        }
        let ghost pre = items.deep_view().subrange(0, i as int);
        push_all(out, &items[i]);
        proof {
            lemma_concat_all_push(pre, items@[i as int]@);
            assert(items@[i as int].deep_view() =~= items@[i as int]@);
            assert(pre.push(items@[i as int]@) =~= items.deep_view().subrange(0, i + 1));
            crate::bytes::lemma_add_assoc(out0, concat_all(pre), items@[i as int]@);
        }
        i += 1;
    }
    proof {
        assert(items.deep_view().subrange(0, items@.len() as int) =~= items.deep_view());
    }
}

/// Serializes a metadata-carried bundle back to payload bytes. The thirty-
/// two bytes of round metadata after a tagged version's scheme byte are not
/// part of the bundle and are emitted as zeros.
pub fn encode_metadata_proof(b: &ProofBundle) -> (r: Vec<u8>)
    requires
        b@.wf(),
        !(b@ is Script),
    ensures
        r@ == encode_metadata_model(b@),
{
    let mut out: Vec<u8> = Vec::new();
    match b {
        ProofBundle::RecoveredForm { version, addresses, signatures } => {
            append_metadata_prefix(&mut out, *version, SCHEME_ECDSA);
            proof {
                assert(Seq::<u8>::empty() + metadata_prefix(*version, SCHEME_ECDSA)
                    =~= metadata_prefix(*version, SCHEME_ECDSA));
            }
            append_chunks(&mut out, addresses);
            append_chunks(&mut out, signatures);
            proof {
                assert(out@ == encode_metadata_model(b@));
            }
        },
        ProofBundle::ThresholdForm { version, group_key, group_signature } => {
            append_metadata_prefix(&mut out, *version, SCHEME_THRESHOLD);
            proof {
                assert(Seq::<u8>::empty() + metadata_prefix(*version, SCHEME_THRESHOLD)
                    =~= metadata_prefix(*version, SCHEME_THRESHOLD));
            }
            push_all(&mut out, group_key);
            push_all(&mut out, group_signature);
            proof {
                assert(out@ == encode_metadata_model(b@));
            }
        },
        ProofBundle::ScriptForm { .. } => {
            proof {
                assert(false);
            }
        },
    }
    out
}

/// Appends the canonical hashable prefix for a metadata payload.
fn append_metadata_prefix(out: &mut Vec<u8>, version: u8, scheme: u8)
    ensures
        final(out)@ == old(out)@ + metadata_prefix(version, scheme),
{
    let ghost out0: Seq<u8> = out@;
    if version == 0 {
        out.push(0);
        proof {
            assert(out@ =~= out0 + metadata_prefix(version, scheme));
        }
    } else {
        out.push(version);
        out.push(scheme);
        let mut i: usize = 0;
        while i < 32
            invariant
                i <= 32,
                out@ == out0 + seq![version, scheme] + zeros(i as nat),
            decreases 32 - i,
        {
            out.push(0);
            proof {
                assert(zeros((i + 1) as nat) =~= zeros(i as nat).push(0u8));
            }
            i += 1;
        }
        proof {
            crate::bytes::lemma_add_assoc(out0, seq![version, scheme], zeros(32));
            assert(out@ =~= out0 + metadata_prefix(version, scheme));
        }
    }
}

/// One key group of the verification script: push opcode, length byte, key.
pub open spec fn key_group(k: Seq<u8>) -> Seq<u8> {
    seq![OP_PUSHDATA1, PUBKEY_LEN as u8] + k
}

/// One signature group of the invocation script.
pub open spec fn sig_group(sg: Seq<u8>) -> Seq<u8> {
    seq![OP_PUSHDATA1, SCRIPT_SIGNATURE_LEN as u8] + sg
}

/// The verification script for a committee: the threshold push, seven key
/// groups, the committee-size push, and the check-multisig syscall.
pub open spec fn verification_script_model(keys: Seq<Seq<u8>>) -> Seq<u8> {
    seq![OP_PUSH5] + concat_all(keys.map_values(|k: Seq<u8>| key_group(k))) + seq![
        OP_PUSH7,
        OP_SYSCALL,
    ] + check_multisig_id()
}

/// The invocation script for a quorum: five signature groups.
pub open spec fn invocation_script_model(sigs: Seq<Seq<u8>>) -> Seq<u8> {
    concat_all(sigs.map_values(|sg: Seq<u8>| sig_group(sg)))
}

/// Whether a buffer is exactly a well-formed verification script.
pub open spec fn verification_script_ok(v: Seq<u8>) -> bool {
    &&& v.len() == VERIFICATION_SCRIPT_LEN
    &&& v[0] == OP_PUSH5
    &&& forall|i: int|
        0 <= i < 7 ==> #[trigger] v[i * 37 + 1] == OP_PUSHDATA1 && v[i * 37 + 2]
            == PUBKEY_LEN as u8
    &&& v[260] == OP_PUSH7
    &&& v[261] == OP_SYSCALL
    &&& v.subrange(262, 266) == check_multisig_id()
}

/// The seven keys read out of a well-formed verification script.
pub open spec fn script_keys(v: Seq<u8>) -> Seq<Seq<u8>> {
    Seq::new(7, |i: int| v.subrange(i * 37 + 3, i * 37 + 38))
}

/// Whether a buffer is exactly a well-formed invocation script.
pub open spec fn invocation_script_ok(inv: Seq<u8>) -> bool {
    &&& inv.len() == INVOCATION_SCRIPT_LEN
    &&& forall|i: int|
        0 <= i < 5 ==> #[trigger] inv[i * 66] == OP_PUSHDATA1 && inv[i * 66 + 1]
            == SCRIPT_SIGNATURE_LEN as u8
}

/// The five signatures read out of a well-formed invocation script.
pub open spec fn script_sigs(inv: Seq<u8>) -> Seq<Seq<u8>> {
    Seq::new(5, |i: int| inv.subrange(i * 66 + 2, i * 66 + 66))
}

/// What a script pair decodes to, if anything.
pub open spec fn decode_script_model(v: Seq<u8>, inv: Seq<u8>) -> Option<BundleModel> {
    if verification_script_ok(v) && invocation_script_ok(inv) {
        Some(BundleModel::Script { keys: script_keys(v), sigs: script_sigs(inv) })
    } else {
        None
    }
}

/// The exact fault when a script pair does not decode: the verification
/// script is vetted first, and a wrong length is reported before a wrong
/// byte.
pub open spec fn script_error(v: Seq<u8>, inv: Seq<u8>) -> FormatError
    recommends
        decode_script_model(v, inv) is None,
{
    if v.len() != VERIFICATION_SCRIPT_LEN {
        FormatError::BadLength
    } else if !verification_script_ok(v) {
        FormatError::BadOpcode
    } else if inv.len() != INVOCATION_SCRIPT_LEN {
        FormatError::BadLength
    } else {
        FormatError::BadOpcode
    }
}

/// Decodes a witness script pair into its bundle. Succeeds exactly on the
/// pairs that `decode_script_model` accepts, and then returns their model;
/// otherwise reports the exact fault.
pub fn decode_script_proof(verification: &Vec<u8>, invocation: &Vec<u8>) -> (r: Result<
    ProofBundle,
    FormatError,
>)
    ensures
        match r {
            Ok(b) => decode_script_model(verification@, invocation@) == Some(b@) && b@.wf() && b@
                is Script,
            Err(e) => decode_script_model(verification@, invocation@) is None && e == script_error(
                verification@,
                invocation@,
            ),
        },
{
    if verification.len() != VERIFICATION_SCRIPT_LEN {
        return Err(FormatError::BadLength);
    }
    if verification[0] != OP_PUSH5 {
        return Err(FormatError::BadOpcode);
    }
    let mut pubkeys: Vec<Vec<u8>> = Vec::new();
    let mut i: usize = 0;
    while i < 7
        invariant
            i <= 7,
            verification@.len() == VERIFICATION_SCRIPT_LEN,
            pubkeys@.len() == i,
            forall|j: int|
                0 <= j < i ==> #[trigger] verification@[j * 37 + 1] == OP_PUSHDATA1
                    && verification@[j * 37 + 2] == PUBKEY_LEN as u8,
            pubkeys.deep_view() =~= script_keys(verification@).subrange(0, i as int),
        decreases 7 - i,
    {
        if verification[i * 37 + 1] != OP_PUSHDATA1 {
            return Err(FormatError::BadOpcode);
        }
        if verification[i * 37 + 2] != PUBKEY_LEN as u8 {
            return Err(FormatError::BadOpcode);
        }
        let key = copy_range(verification, i * 37 + 3, i * 37 + 38);
        let ghost pk_old = pubkeys.deep_view();
        proof {
            assert(key.deep_view() =~= key@);
        }
        pubkeys.push(key);
        proof {
            assert(pubkeys.deep_view() =~= pk_old.push(key@));
            assert(pubkeys.deep_view() =~= script_keys(verification@).subrange(0, i + 1));
        }
        i += 1;
    }
    if verification[260] != OP_PUSH7 {
        return Err(FormatError::BadOpcode);
    }
    if verification[261] != OP_SYSCALL {
        return Err(FormatError::BadOpcode);
    }
    let id_found = copy_range(verification, 262, 266);
    let id_want = check_multisig_id_bytes();
    if !crate::bytes::bytes_eq(&id_found, &id_want) {
        return Err(FormatError::BadOpcode);
    }
    proof {
        assert(verification_script_ok(verification@));
    }
    if invocation.len() != INVOCATION_SCRIPT_LEN {
        return Err(FormatError::BadLength);
    }
    let mut signatures: Vec<Vec<u8>> = Vec::new();
    let mut j: usize = 0;
    while j < 5
        invariant
            j <= 5,
            verification@.len() == VERIFICATION_SCRIPT_LEN,
            verification_script_ok(verification@),
            invocation@.len() == INVOCATION_SCRIPT_LEN,
            signatures@.len() == j,
            forall|k: int|
                0 <= k < j ==> #[trigger] invocation@[k * 66] == OP_PUSHDATA1 && invocation@[k * 66
                    + 1] == SCRIPT_SIGNATURE_LEN as u8,
            signatures.deep_view() =~= script_sigs(invocation@).subrange(0, j as int),
        decreases 5 - j,
    {
        if invocation[j * 66] != OP_PUSHDATA1 {
            proof {
                let jj = j as int;
                assert(invocation@[jj * 66] != OP_PUSHDATA1);
                assert(!invocation_script_ok(invocation@));
            }
            return Err(FormatError::BadOpcode);
        }
        if invocation[j * 66 + 1] != SCRIPT_SIGNATURE_LEN as u8 {
            proof {
                let jj = j as int;
                assert(invocation@[jj * 66 + 1] != SCRIPT_SIGNATURE_LEN as u8);
                assert(!invocation_script_ok(invocation@));
            }
            return Err(FormatError::BadOpcode);
        }
        let sig = copy_range(invocation, j * 66 + 2, j * 66 + 66);
        let ghost sg_old = signatures.deep_view();
        proof {
            assert(sig.deep_view() =~= sig@);
        }
        signatures.push(sig);
        proof {
            assert(signatures.deep_view() =~= sg_old.push(sig@));
            assert(signatures.deep_view() =~= script_sigs(invocation@).subrange(0, j + 1));
        }
        j += 1;
    }
    proof {
        assert(invocation_script_ok(invocation@));
    }
    let b = ProofBundle::ScriptForm { pubkeys, signatures };
    proof {
        assert(pubkeys.deep_view() =~= script_keys(verification@));
        assert(signatures.deep_view() =~= script_sigs(invocation@));
        assert(decode_script_model(verification@, invocation@) == Some(b@));
    }
    Ok(b)
}

/// Serializes a script-carried bundle back into its witness script pair.
pub fn encode_script_proof(b: &ProofBundle) -> (r: (Vec<u8>, Vec<u8>))
    requires
        b@.wf(),
        b@ is Script,
    ensures
        match b@ {
            BundleModel::Script { keys, sigs } => r.0@ == verification_script_model(keys) && r.1@
                == invocation_script_model(sigs),
            _ => false,
        },
{
    match b {
        ProofBundle::ScriptForm { pubkeys, signatures } => {
            let ghost keys = pubkeys.deep_view();
            let ghost groups = keys.map_values(|k: Seq<u8>| key_group(k));
            let mut v: Vec<u8> = Vec::new();
            v.push(OP_PUSH5);
            proof {
                assert(concat_all(groups.subrange(0, 0)) =~= Seq::<u8>::empty());
                assert(v@ =~= seq![OP_PUSH5] + concat_all(groups.subrange(0, 0)));
            }
            let mut i: usize = 0;
            while i < pubkeys.len()
                invariant
                    i <= pubkeys@.len(),
                    keys == pubkeys.deep_view(),
                    groups == keys.map_values(|k: Seq<u8>| key_group(k)),
                    v@ == seq![OP_PUSH5] + concat_all(groups.subrange(0, i as int)),
                decreases pubkeys@.len() - i,
            {
                let ghost pre = groups.subrange(0, i as int);
                let ghost v0 = v@;
                v.push(OP_PUSHDATA1);
                v.push(PUBKEY_LEN as u8);
                push_all(&mut v, &pubkeys[i]);
                proof {
                    assert(v@ =~= v0 + key_group(pubkeys@[i as int]@));
                    lemma_concat_all_push(pre, key_group(pubkeys@[i as int]@));
                    assert(pubkeys.deep_view()[i as int] =~= pubkeys@[i as int]@);
                    assert(groups[i as int] == key_group(keys[i as int]));
                    assert(pre.push(groups[i as int]) =~= groups.subrange(0, i + 1));
                    crate::bytes::lemma_add_assoc(
                        seq![OP_PUSH5],
                        concat_all(pre),
                        key_group(pubkeys@[i as int]@),
                    );
                }
                i += 1;
            }
            proof {
                assert(groups.subrange(0, pubkeys@.len() as int) =~= groups);
            }
            v.push(OP_PUSH7);
            v.push(OP_SYSCALL);
            let id = check_multisig_id_bytes();
            push_all(&mut v, &id);
            proof {
                assert(v@ =~= verification_script_model(keys));
            }
            let ghost sigs = signatures.deep_view();
            let ghost sgroups = sigs.map_values(|sg: Seq<u8>| sig_group(sg));
            let mut inv: Vec<u8> = Vec::new();
            proof {
                assert(concat_all(sgroups.subrange(0, 0)) =~= Seq::<u8>::empty());
                assert(inv@ =~= concat_all(sgroups.subrange(0, 0)));
            }
            let mut j: usize = 0;
            while j < signatures.len()
                invariant
                    j <= signatures@.len(),
                    sigs == signatures.deep_view(),
                    sgroups == sigs.map_values(|sg: Seq<u8>| sig_group(sg)),
                    inv@ == concat_all(sgroups.subrange(0, j as int)),
                decreases signatures@.len() - j,
            {
                let ghost pre = sgroups.subrange(0, j as int);
                let ghost inv0 = inv@;
                inv.push(OP_PUSHDATA1);
                inv.push(SCRIPT_SIGNATURE_LEN as u8);
                push_all(&mut inv, &signatures[j]);
                proof {
                    assert(inv@ =~= inv0 + sig_group(signatures@[j as int]@));
                    lemma_concat_all_push(pre, sig_group(signatures@[j as int]@));
                    assert(signatures.deep_view()[j as int] =~= signatures@[j as int]@);
                    assert(sgroups[j as int] == sig_group(sigs[j as int]));
                    assert(pre.push(sgroups[j as int]) =~= sgroups.subrange(0, j + 1));
                }
                j += 1;
            }
            proof {
                assert(sgroups.subrange(0, signatures@.len() as int) =~= sgroups);
                assert(inv@ == invocation_script_model(sigs));
            }
            (v, inv)
        },
        _ => {
            proof {
                assert(false);
            }
            (Vec::new(), Vec::new())
        },
    }
}

/// Decoding an encoded script-carried bundle gives the bundle back: the
/// built scripts satisfy the grammar, and the keys and signatures read out
/// of them are the ones put in.
pub proof fn lemma_script_round_trip(keys: Seq<Seq<u8>>, sigs: Seq<Seq<u8>>)
    requires
        (BundleModel::Script { keys, sigs }).wf(),
    ensures
        decode_script_model(verification_script_model(keys), invocation_script_model(sigs))
            == Some(BundleModel::Script { keys, sigs }),
{
    let groups = keys.map_values(|k: Seq<u8>| key_group(k));
    assert forall|i: int| 0 <= i < groups.len() implies #[trigger] groups[i].len() == 37 by {
        assert(groups[i] == key_group(keys[i]));
        assert(keys[i].len() == PUBKEY_LEN);
    }
    assert(all_len(groups, 37));
    lemma_concat_all_len(groups, 37);
    let c = concat_all(groups);
    let v = verification_script_model(keys);
    assert(v.len() == VERIFICATION_SCRIPT_LEN);
    assert(v[0] == OP_PUSH5);
    assert forall|i: int|
        0 <= i < 7 implies #[trigger] v[i * 37 + 1] == OP_PUSHDATA1 && v[i * 37 + 2]
            == PUBKEY_LEN as u8 by {
        lemma_concat_all_index(groups, 37, i * 37);
        lemma_concat_all_index(groups, 37, i * 37 + 1);
        assert((i * 37) / 37 == i && (i * 37) % 37 == 0 && (i * 37 + 1) / 37 == i && (i * 37 + 1)
            % 37 == 1) by (nonlinear_arith)
            requires
                0 <= i,
        ;
        assert(groups[i] == key_group(keys[i]));
        assert(v[i * 37 + 1] == c[i * 37]);
        assert(v[i * 37 + 2] == c[i * 37 + 1]);
    }
    assert(v[260] == OP_PUSH7);
    assert(v[261] == OP_SYSCALL);
    assert(v.subrange(262, 266) =~= check_multisig_id());
    assert(verification_script_ok(v));
    assert forall|i: int| 0 <= i < 7 implies script_keys(v)[i] == keys[i] by {
        let part = v.subrange(i * 37 + 3, i * 37 + 38);
        assert forall|j: int| 0 <= j < 35 implies part[j] == keys[i][j] by {
            lemma_concat_all_index(groups, 37, i * 37 + 2 + j);
            assert((i * 37 + 2 + j) / 37 == i && (i * 37 + 2 + j) % 37 == 2 + j)
                by (nonlinear_arith)
                requires
                    0 <= i,
                    0 <= j < 35,
            ;
            assert(groups[i] == key_group(keys[i]));
            assert(v[i * 37 + 3 + j] == c[i * 37 + 2 + j]);
        }
        assert(keys[i].len() == PUBKEY_LEN);
        assert(part =~= keys[i]);
    }
    assert(script_keys(v) =~= keys);
    let sgroups = sigs.map_values(|sg: Seq<u8>| sig_group(sg));
    assert forall|i: int| 0 <= i < sgroups.len() implies #[trigger] sgroups[i].len() == 66 by {
        assert(sgroups[i] == sig_group(sigs[i]));
        assert(sigs[i].len() == SCRIPT_SIGNATURE_LEN);
    }
    assert(all_len(sgroups, 66));
    lemma_concat_all_len(sgroups, 66);
    let inv = invocation_script_model(sigs);
    assert(inv.len() == INVOCATION_SCRIPT_LEN);
    assert forall|i: int|
        0 <= i < 5 implies #[trigger] inv[i * 66] == OP_PUSHDATA1 && inv[i * 66 + 1]
            == SCRIPT_SIGNATURE_LEN as u8 by {
        lemma_concat_all_index(sgroups, 66, i * 66);
        lemma_concat_all_index(sgroups, 66, i * 66 + 1);
        assert((i * 66) / 66 == i && (i * 66) % 66 == 0 && (i * 66 + 1) / 66 == i && (i * 66 + 1)
            % 66 == 1) by (nonlinear_arith)
            requires
                0 <= i,
        ;
        assert(sgroups[i] == sig_group(sigs[i]));
    }
    assert(invocation_script_ok(inv));
    assert forall|i: int| 0 <= i < 5 implies script_sigs(inv)[i] == sigs[i] by {
        let part = inv.subrange(i * 66 + 2, i * 66 + 66);
        assert forall|j: int| 0 <= j < 64 implies part[j] == sigs[i][j] by {
            lemma_concat_all_index(sgroups, 66, i * 66 + 2 + j);
            assert((i * 66 + 2 + j) / 66 == i && (i * 66 + 2 + j) % 66 == 2 + j)
                by (nonlinear_arith)
                requires
                    0 <= i,
                    0 <= j < 64,
            ;
            assert(sgroups[i] == sig_group(sigs[i]));
        }
        assert(sigs[i].len() == SCRIPT_SIGNATURE_LEN);
        assert(part =~= sigs[i]);
    }
    assert(script_sigs(inv) =~= sigs);
}

/// Decoding an encoded metadata-carried bundle gives the bundle back.
pub proof fn lemma_metadata_round_trip(m: BundleModel)
    requires
        m.wf(),
        !(m is Script),
    ensures
        decode_metadata_model(encode_metadata_model(m)) == Some(m),
{
    match m {
        BundleModel::Recovered { version, addrs, sigs } => {
            let prefix = metadata_prefix(version, SCHEME_ECDSA);
            let a = concat_all(addrs);
            let sg = concat_all(sigs);
            let p = encode_metadata_model(m);
            lemma_concat_all_len(addrs, ADDRESS_LEN as nat);
            lemma_concat_all_len(sigs, ECDSA_SIGNATURE_LEN as nat);
            let base = prefix.len() as int;
            assert(base == if version == 0 { 1int } else { 34int });
            assert(p.len() == base + 140 + 325);
            assert(p[0] == version);
            if version != 0 {
                assert(p[1] == SCHEME_ECDSA);
            }
            assert forall|i: int|
                0 <= i < 7 implies chunks(p, base, 7, ADDRESS_LEN as int)[i] == addrs[i] by {
                let part = p.subrange(base + i * 20, base + (i + 1) * 20);
                assert forall|j: int| 0 <= j < 20 implies part[j] == addrs[i][j] by {
                    lemma_concat_all_index(addrs, ADDRESS_LEN as nat, i * 20 + j);
                    assert((i * 20 + j) / 20 == i && (i * 20 + j) % 20 == j) by (nonlinear_arith)
                        requires
                            0 <= i,
                            0 <= j < 20,
                    ;
                    assert(0 <= i * 20 + j < 140) by (nonlinear_arith)
                        requires
                            0 <= i < 7,
                            0 <= j < 20,
                    ;
                    assert(part[j] == p[base + i * 20 + j]);
                    assert(p[base + i * 20 + j] == a[i * 20 + j]);
                }
                assert(addrs[i].len() == ADDRESS_LEN);
                assert(part =~= addrs[i]);
            }
            assert(chunks(p, base, 7, ADDRESS_LEN as int) =~= addrs);
            assert forall|i: int|
                0 <= i < 5 implies chunks(p, base + 140, 5, ECDSA_SIGNATURE_LEN as int)[i]
                    == sigs[i] by {
                let part = p.subrange(base + 140 + i * 65, base + 140 + (i + 1) * 65);
                assert forall|j: int| 0 <= j < 65 implies part[j] == sigs[i][j] by {
                    lemma_concat_all_index(sigs, ECDSA_SIGNATURE_LEN as nat, i * 65 + j);
                    assert((i * 65 + j) / 65 == i && (i * 65 + j) % 65 == j) by (nonlinear_arith)
                        requires
                            0 <= i,
                            0 <= j < 65,
                    ;
                    assert(0 <= i * 65 + j < 325) by (nonlinear_arith)
                        requires
                            0 <= i < 5,
                            0 <= j < 65,
                    ;
                    assert(part[j] == p[base + 140 + i * 65 + j]);
                    assert(p[base + 140 + i * 65 + j] == sg[i * 65 + j]);
                }
                assert(sigs[i].len() == ECDSA_SIGNATURE_LEN);
                assert(part =~= sigs[i]);
            }
            assert(chunks(p, base + 140, 5, ECDSA_SIGNATURE_LEN as int) =~= sigs);
        },
        BundleModel::Threshold { version, key, sig } => {
            let prefix = metadata_prefix(version, SCHEME_THRESHOLD);
            let p = encode_metadata_model(m);
            assert(prefix.len() == 34);
            assert(p.len() == V1_BLS_PAYLOAD_LEN);
            assert(p[0] == version);
            assert(p[1] == SCHEME_THRESHOLD);
            assert(p.subrange(34, 82) =~= key);
            assert(p.subrange(82, 178) =~= sig);
        },
        BundleModel::Script { .. } => {
            assert(false);
        },
    }
}

} // verus!
