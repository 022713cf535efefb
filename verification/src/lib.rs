//! Verification engine for dBFT consensus header transitions.
//!
//! Given two consecutive block headers, the library decides whether the newer
//! header was legitimately produced by the committee that the older header
//! committed to. Three proof encodings are supported: a script-based
//! multisignature carried in a witness pair, an address-recovery ECDSA
//! multisignature carried in the header's extra payload, and a BLS threshold
//! signature carried in the same payload.

use vstd::prelude::*;

pub mod bls;
pub mod bundle;
pub mod bytes;
pub mod ecdsa;
pub mod hashes;
pub mod header;
pub mod n3;
pub mod neox;
pub mod outputs;
pub mod rlp;

verus! {

/// Number of committee members fixed by the protocol.
pub const COMMITTEE_SIZE: usize = 7;

/// Number of valid signatures required for a quorum.
pub const SIG_THRESHOLD: usize = 5;

/// Structural faults found while decoding a proof payload or re-serializing
/// a header. The public verdict collapses every fault to a rejection; the
/// variants exist so that decoders can say exactly why they refused.
#[derive(Clone, Copy, Debug, PartialEq, Eq, Structural)]
pub enum FormatError {
    /// The leading version tag of the payload is not one the protocol knows.
    UnknownVersion,
    /// The scheme discriminant of a tagged payload is not one the protocol
    /// knows.
    UnknownScheme,
    /// The buffer is not of the exact length its tag demands.
    BadLength,
    /// A script byte differs from the fixed grammar.
    BadOpcode,
}

} // verus!
