//! The block header model and its two canonical serializations: the full
//! form whose digest is the block hash, and the seal form — the payload
//! field cut back to its hashable prefix — whose digest the committee signs.

use vstd::prelude::*;

use crate::FormatError;
use crate::bytes::push_all;
use crate::hashes::{keccak256, keccak256_of};
use crate::rlp::{
    append_rlp_list_header, append_rlp_string, append_rlp_u64, append_rlp_uint_be, be_val,
    rlp_list_header, rlp_string, rlp_uint,
};

verus! {

/// Payload version tag of the legacy, script-less encoding.
pub const EXTRA_V0: u8 = 0;

/// Payload version tag of the first tagged encoding; its threshold variant
/// carries the signature point negated.
pub const EXTRA_V1: u8 = 1;

/// Payload version tag of the finalized tagged encoding.
pub const EXTRA_V2: u8 = 2;

/// Length of the hashable payload prefix under the legacy tag.
pub const HASHABLE_EXTRA_V0_LEN: usize = 1;

/// Length of the hashable payload prefix under the tagged versions.
pub const HASHABLE_EXTRA_V1_LEN: usize = 34;

/// A block header, with every field already in plain byte or integer form.
/// The payload field (`extra_data`) carries the committee's approval proof.
#[derive(Clone)]
pub struct Header {
    /// Hash of the parent block.
    pub parent_hash: Vec<u8>,
    /// Digest over the ommer list.
    pub ommers_hash: Vec<u8>,
    /// Address of the block's beneficiary.
    pub beneficiary: Vec<u8>,
    /// State root after this block.
    pub state_root: Vec<u8>,
    /// Root of the transaction trie.
    pub transactions_root: Vec<u8>,
    /// Root of the receipt trie.
    pub receipts_root: Vec<u8>,
    /// Log bloom filter.
    pub logs_bloom: Vec<u8>,
    /// Difficulty as a 32-byte big-endian integer.
    pub difficulty: Vec<u8>,
    /// Block height.
    pub number: u64,
    /// Gas limit.
    pub gas_limit: u64,
    /// Gas used.
    pub gas_used: u64,
    /// Timestamp; strictly increasing along the chain.
    pub timestamp: u64,
    /// The free-form payload; here it carries the consensus proof.
    pub extra_data: Vec<u8>,
    /// Commitment to the committee of the following block.
    pub mix_hash: Vec<u8>,
    /// Proof-of-work nonce field, 8 bytes.
    pub nonce: Vec<u8>,
    /// Base fee, present after the fee-market fork.
    pub base_fee_per_gas: Option<u64>,
    /// Withdrawals root, present after the withdrawals fork.
    pub withdrawals_root: Option<Vec<u8>>,
}

impl Header {
    /// Every fixed-width field has its protocol width.
    pub open spec fn wf(self) -> bool {
        &&& self.parent_hash@.len() == 32
        &&& self.ommers_hash@.len() == 32
        &&& self.beneficiary@.len() == 20
        &&& self.state_root@.len() == 32
        &&& self.transactions_root@.len() == 32
        &&& self.receipts_root@.len() == 32
        &&& self.logs_bloom@.len() == 256
        &&& self.difficulty@.len() == 32
        &&& self.mix_hash@.len() == 32
        &&& self.nonce@.len() == 8
        &&& match self.withdrawals_root {
            Some(w) => w@.len() == 32,
            None => true,
        }
    }
}

/// The concatenated RLP items of a header, with `extra` standing in for the
/// payload field: the full payload for the block hash, only its hashable
/// prefix for the seal.
pub open spec fn fields_rlp(h: Header, extra: Seq<u8>) -> Seq<u8> {
    rlp_string(h.parent_hash@) + rlp_string(h.ommers_hash@) + rlp_string(h.beneficiary@)
        + rlp_string(h.state_root@) + rlp_string(h.transactions_root@) + rlp_string(
        h.receipts_root@,
    ) + rlp_string(h.logs_bloom@) + rlp_uint(be_val(h.difficulty@)) + rlp_uint(h.number as nat)
        + rlp_uint(h.gas_limit as nat) + rlp_uint(h.gas_used as nat) + rlp_uint(h.timestamp as nat)
        + rlp_string(extra) + rlp_string(h.mix_hash@) + rlp_string(h.nonce@) + (
    match h.base_fee_per_gas {
        Some(f) => rlp_uint(f as nat),
        None => Seq::<u8>::empty(),
    }) + (match h.withdrawals_root {
        Some(w) => rlp_string(w@),
        None => Seq::<u8>::empty(),
    })
}

/// The full RLP form of a header: list envelope, then every field with the
/// whole payload.
pub open spec fn header_rlp(h: Header) -> Seq<u8> {
    rlp_list_header(fields_rlp(h, h.extra_data@).len()) + fields_rlp(h, h.extra_data@)
}

/// The block hash: digest of the full RLP form.
pub open spec fn block_hash(h: Header) -> Seq<u8> {
    keccak256_of(header_rlp(h))
}

/// How many leading payload bytes stay in the seal form, by version tag.
pub open spec fn hashable_prefix_len(extra: Seq<u8>) -> Option<nat> {
    if extra.len() == 0 {
        None
    } else if extra[0] == EXTRA_V0 {
        Some(HASHABLE_EXTRA_V0_LEN as nat)
    } else if extra[0] == EXTRA_V1 || extra[0] == EXTRA_V2 {
        Some(HASHABLE_EXTRA_V1_LEN as nat)
    } else {
        None
    }
}

/// Whether the seal form of a header exists: a recognized tag, and a payload
/// long enough to hold its hashable prefix.
pub open spec fn seal_encodable(h: Header) -> bool {
    match hashable_prefix_len(h.extra_data@) {
        Some(n) => n <= h.extra_data@.len(),
        None => false,
    }
}

/// The exact fault reported when the seal form does not exist.
pub open spec fn seal_error(h: Header) -> FormatError
    recommends
        !seal_encodable(h),
{
    if hashable_prefix_len(h.extra_data@) is None {
        FormatError::UnknownVersion
    } else {
        FormatError::BadLength
    }
}

/// The seal RLP form: list envelope, then every field with the payload cut
/// back to its hashable prefix.
pub open spec fn seal_rlp(h: Header) -> Seq<u8>
    recommends
        seal_encodable(h),
{
    let prefix = h.extra_data@.subrange(0, hashable_prefix_len(h.extra_data@).unwrap() as int);
    rlp_list_header(fields_rlp(h, prefix).len()) + fields_rlp(h, prefix)
}

/// The seal hash: the digest the committee signs.
pub open spec fn seal_hash_of(h: Header) -> Seq<u8>
    recommends
        seal_encodable(h),
{
    keccak256_of(seal_rlp(h))
}

/// Appends every RLP field of `h` to `out`, with `extra` in the payload
/// position.
#[verifier::rlimit(60)]
fn append_fields(out: &mut Vec<u8>, h: &Header, extra: &Vec<u8>)
    ensures
        final(out)@ == old(out)@ + fields_rlp(*h, extra@),
{
    let ghost out0: Seq<u8> = out@;
    append_rlp_string(out, &h.parent_hash);
    let ghost mut acc: Seq<u8> = rlp_string(h.parent_hash@);
    proof {
        assert(out@ == out0 + acc);
    }
    append_rlp_string(out, &h.ommers_hash);
    proof {
        crate::bytes::lemma_add_assoc(out0, acc, rlp_string(h.ommers_hash@));
        acc = acc + rlp_string(h.ommers_hash@);
        assert(out@ == out0 + acc);
    }
    append_rlp_string(out, &h.beneficiary);
    proof {
        crate::bytes::lemma_add_assoc(out0, acc, rlp_string(h.beneficiary@));
        acc = acc + rlp_string(h.beneficiary@);
        assert(out@ == out0 + acc);
    }
    append_rlp_string(out, &h.state_root);
    proof {
        crate::bytes::lemma_add_assoc(out0, acc, rlp_string(h.state_root@));
        acc = acc + rlp_string(h.state_root@);
        assert(out@ == out0 + acc);
    }
    append_rlp_string(out, &h.transactions_root);
    proof {
        crate::bytes::lemma_add_assoc(out0, acc, rlp_string(h.transactions_root@));
        acc = acc + rlp_string(h.transactions_root@);
        assert(out@ == out0 + acc);
    }
    append_rlp_string(out, &h.receipts_root);
    proof {
        crate::bytes::lemma_add_assoc(out0, acc, rlp_string(h.receipts_root@));
        acc = acc + rlp_string(h.receipts_root@);
        assert(out@ == out0 + acc);
    }
    append_rlp_string(out, &h.logs_bloom);
    proof {
        crate::bytes::lemma_add_assoc(out0, acc, rlp_string(h.logs_bloom@));
        acc = acc + rlp_string(h.logs_bloom@);
        assert(out@ == out0 + acc);
    }
    append_rlp_uint_be(out, &h.difficulty);
    proof {
        crate::bytes::lemma_add_assoc(out0, acc, rlp_uint(be_val(h.difficulty@)));
        acc = acc + rlp_uint(be_val(h.difficulty@));
        assert(out@ == out0 + acc);
    }
    append_rlp_u64(out, h.number);
    proof {
        crate::bytes::lemma_add_assoc(out0, acc, rlp_uint(h.number as nat));
        acc = acc + rlp_uint(h.number as nat);
        assert(out@ == out0 + acc);
    }
    append_rlp_u64(out, h.gas_limit);
    proof {
        crate::bytes::lemma_add_assoc(out0, acc, rlp_uint(h.gas_limit as nat));
        acc = acc + rlp_uint(h.gas_limit as nat);
        assert(out@ == out0 + acc);
    }
    append_rlp_u64(out, h.gas_used);
    proof {
        crate::bytes::lemma_add_assoc(out0, acc, rlp_uint(h.gas_used as nat));
        acc = acc + rlp_uint(h.gas_used as nat);
        assert(out@ == out0 + acc);
    }
    append_rlp_u64(out, h.timestamp);
    proof {
        crate::bytes::lemma_add_assoc(out0, acc, rlp_uint(h.timestamp as nat));
        acc = acc + rlp_uint(h.timestamp as nat);
        assert(out@ == out0 + acc);
    }
    append_rlp_string(out, extra);
    proof {
        crate::bytes::lemma_add_assoc(out0, acc, rlp_string(extra@));
        acc = acc + rlp_string(extra@);
        assert(out@ == out0 + acc);
    }
    append_rlp_string(out, &h.mix_hash);
    proof {
        crate::bytes::lemma_add_assoc(out0, acc, rlp_string(h.mix_hash@));
        acc = acc + rlp_string(h.mix_hash@);
        assert(out@ == out0 + acc);
    }
    append_rlp_string(out, &h.nonce);
    proof {
        crate::bytes::lemma_add_assoc(out0, acc, rlp_string(h.nonce@));
        acc = acc + rlp_string(h.nonce@);
        assert(out@ == out0 + acc);
    }
    let ghost fee_rlp: Seq<u8> = match h.base_fee_per_gas {
        Some(f) => rlp_uint(f as nat),
        None => Seq::<u8>::empty(),
    };
    match h.base_fee_per_gas {
        Some(f) => append_rlp_u64(out, f),
        None => proof {
            assert(out@ =~= out@ + fee_rlp);
        },
    }
    proof {
        crate::bytes::lemma_add_assoc(out0, acc, fee_rlp);
        acc = acc + fee_rlp;
        assert(out@ == out0 + acc);
    }
    let ghost wr_rlp: Seq<u8> = match &h.withdrawals_root {
        Some(w) => rlp_string(w@),
        None => Seq::<u8>::empty(),
    };
    match &h.withdrawals_root {
        Some(w) => append_rlp_string(out, w),
        None => proof {
            assert(out@ =~= out@ + wr_rlp);
        },
    }
    proof {
        crate::bytes::lemma_add_assoc(out0, acc, wr_rlp);
        acc = acc + wr_rlp;
        assert(out@ == out0 + acc);
        assert(acc == fields_rlp(*h, extra@));
    }
}

/// RLP payload length of the full header form: what the list envelope of
/// the block-hash serialization counts.
pub fn header_payload_length(h: &Header) -> (r: usize)
    ensures
        r == fields_rlp(*h, h.extra_data@).len(),
{
    let mut fields: Vec<u8> = Vec::new();
    append_fields(&mut fields, h, &h.extra_data);
    fields.len()
}

/// Serializes the full header form.
pub fn encode_header(h: &Header) -> (r: Vec<u8>)
    ensures
        r@ == header_rlp(*h),
{
    let mut fields: Vec<u8> = Vec::new();
    append_fields(&mut fields, h, &h.extra_data);
    let mut out: Vec<u8> = Vec::new();
    append_rlp_list_header(&mut out, fields.len());
    push_all(&mut out, &fields);
    out
}

/// Computes the block hash of a header.
pub fn header_hash(h: &Header) -> (r: Vec<u8>)
    ensures
        r@ == block_hash(*h),
        r@.len() == 32,
{
    let encoded = encode_header(h);
    keccak256(&encoded)
}

/// Serializes the seal form of a header: the bytes whose digest the
/// committee signs. Fails exactly when the payload's version tag is
/// unrecognized or the payload is shorter than its hashable prefix.
pub fn encode_sig_header(h: &Header) -> (r: Result<Vec<u8>, FormatError>)
    ensures
        match r {
            Ok(out) => seal_encodable(*h) && out@ == seal_rlp(*h),
            Err(e) => !seal_encodable(*h) && e == seal_error(*h),
        },
{
    if h.extra_data.len() == 0 {
        return Err(FormatError::UnknownVersion);
    }
    let tag = h.extra_data[0];
    let prefix_len: usize = if tag == EXTRA_V0 {
        HASHABLE_EXTRA_V0_LEN
    } else if tag == EXTRA_V1 || tag == EXTRA_V2 {
        HASHABLE_EXTRA_V1_LEN
    } else {
        return Err(FormatError::UnknownVersion);
    };
    if h.extra_data.len() < prefix_len {
        return Err(FormatError::BadLength);
    }
    let prefix = crate::bytes::copy_range(&h.extra_data, 0, prefix_len);
    let mut fields: Vec<u8> = Vec::new();
    append_fields(&mut fields, h, &prefix);
    let mut out: Vec<u8> = Vec::new();
    append_rlp_list_header(&mut out, fields.len());
    push_all(&mut out, &fields);
    Ok(out)
}

/// Computes the seal hash of a header.
pub fn seal_hash(h: &Header) -> (r: Result<Vec<u8>, FormatError>)
    ensures
        match r {
            Ok(out) => seal_encodable(*h) && out@ == seal_hash_of(*h) && out@.len() == 32,
            Err(e) => !seal_encodable(*h) && e == seal_error(*h),
        },
{
    match encode_sig_header(h) {
        Ok(encoded) => Ok(keccak256(&encoded)),
        Err(e) => Err(e),
    }
}

} // verus!
