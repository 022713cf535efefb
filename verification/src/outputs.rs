//! The committed public tuple that accompanies an accepted transition:
//! five 32-byte digests, and their fixed binary-interface encoding (five
//! static words in field order).

use vstd::prelude::*;

use crate::bytes::push_all;
use crate::header::{block_hash, header_hash, Header};

verus! {

/// The public values committed for an accepted transition, in their fixed
/// field order.
pub struct ProofOutputs {
    /// Hash of the parent header.
    pub prev_header: Vec<u8>,
    /// Hash of the new header.
    pub new_header: Vec<u8>,
    /// State root of the new block.
    pub content_root: Vec<u8>,
    /// Committee commitment carried by the parent header.
    pub consensus_hash: Vec<u8>,
    /// Committee commitment carried by the new header.
    pub next_consensus_hash: Vec<u8>,
}

impl ProofOutputs {
    /// Every field is one 32-byte word.
    pub open spec fn wf(self) -> bool {
        &&& self.prev_header@.len() == 32
        &&& self.new_header@.len() == 32
        &&& self.content_root@.len() == 32
        &&& self.consensus_hash@.len() == 32
        &&& self.next_consensus_hash@.len() == 32
    }
}

/// The binary-interface encoding of the tuple: the five words back to back.
pub open spec fn abi_encoding(o: ProofOutputs) -> Seq<u8> {
    o.prev_header@ + o.new_header@ + o.content_root@ + o.consensus_hash@ + o.next_consensus_hash@
}

impl ProofOutputs {
    /// Serializes the tuple for the binary-interface consumer.
    pub fn abi_encode(&self) -> (r: Vec<u8>)
        requires
            self.wf(),
        ensures
            r@ == abi_encoding(*self),
            r@.len() == 160,
    {
        let mut r: Vec<u8> = Vec::new();
        push_all(&mut r, &self.prev_header);
        push_all(&mut r, &self.new_header);
        push_all(&mut r, &self.content_root);
        push_all(&mut r, &self.consensus_hash);
        push_all(&mut r, &self.next_consensus_hash);
        proof {
            assert(r@ =~= abi_encoding(*self));
        }
        r
    }
}

/// Builds the committed tuple for a header pair: the two block hashes, the
/// new state root, and the two committee commitments. The caller publishes
/// it only for an accepted transition.
pub fn proof_outputs(parent: &Header, current: &Header) -> (o: ProofOutputs)
    requires
        parent.wf(),
        current.wf(),
    ensures
        o.prev_header@ == block_hash(*parent),
        o.new_header@ == block_hash(*current),
        o.content_root@ == current.state_root@,
        o.consensus_hash@ == parent.mix_hash@,
        o.next_consensus_hash@ == current.mix_hash@,
        o.wf(),
{
    let prev_header = header_hash(parent);
    let new_header = header_hash(current);
    let content_root = crate::bytes::copy_range(&current.state_root, 0, current.state_root.len());
    let consensus_hash = crate::bytes::copy_range(&parent.mix_hash, 0, parent.mix_hash.len());
    let next_consensus_hash = crate::bytes::copy_range(&current.mix_hash, 0, current.mix_hash.len());
    proof {
        assert(current.state_root@.subrange(0, current.state_root@.len() as int)
            =~= current.state_root@);
        assert(parent.mix_hash@.subrange(0, parent.mix_hash@.len() as int) =~= parent.mix_hash@);
        assert(current.mix_hash@.subrange(0, current.mix_hash@.len() as int)
            =~= current.mix_hash@);
    }
    ProofOutputs { prev_header, new_header, content_root, consensus_hash, next_consensus_hash }
}

} // verus!
