//! Shred parsing and FEC recovery.
//!
//! A shred is an MTU sized frame of ledger data. There are two types of shreds: data shreds carry
//! ledger entries, coding shreds carry redundancy that protects against dropped packets.
//!
//! Layout of a data shred:
//!
//! ```text
//! common header | data header | data | Merkle root of the previous erasure batch
//!     | Merkle proof | [retransmitter's signature, if resigned]
//! ```
//!
//! Layout of a coding shred:
//!
//! ```text
//! common header | coding header | erasure coded shard | Merkle root of the previous erasure batch
//!     | Merkle proof | [retransmitter's signature, if resigned]
//! ```
//!
//! Coding shreds encode data shreds from behind their signature up to the chained Merkle root, and
//! the erasure code needs both shards to be of one length. That fixes the size of a data shred.
use crate::geometry::capacity_of;
use vstd::prelude::*;

pub mod batch_laws;
pub mod blockstore_meta;
pub mod bytes_util;
pub mod copy_laws;
pub mod crypto;
pub mod data_only_laws;
pub mod discard;
pub mod discard_laws;
pub mod error;
pub mod flags;
pub mod format_laws;
pub mod geometry;
pub mod header;
pub mod id;
pub mod laws;
pub mod merkle;
pub mod merkle_tree;
pub mod model;
pub mod payload;
pub mod recover;
pub mod recover_laws;
pub mod reed_solomon;
pub mod refusal_laws;
pub mod restore;
pub mod shred;
pub mod shred_code;
pub mod shred_data;
pub mod shred_laws;
pub mod shred_type;
pub mod stats;
pub mod step_laws;
pub mod wire;

pub use crate::discard::should_discard_shred;
pub use crate::error::Error;
pub use crate::flags::ShredFlags;
pub use crate::id::{ErasureSetId, ShredId};
pub use crate::payload::Payload;
pub use crate::shred::Shred;
pub use crate::shred_code::ShredCode;
pub use crate::shred_data::ShredData;
pub use crate::merkle_tree::PROOF_ENTRIES_FOR_32_32_BATCH;
pub use crate::recover::{recover, recover_data_only};
pub use crate::reed_solomon::ReedSolomonCache;
pub use crate::shred_type::ShredType;
pub use crate::stats::ShredFetchStats;
pub use crate::wire as layout;

verus! {

/// A slot number of the ledger.
pub type Slot = u64;

/// The nonce that follows a shred in a repair response.
pub type Nonce = u32;

/// An ed25519 signature.
pub type Signature = [u8; 64];

/// A SHA-256 digest.
pub type Digest = [u8; 32];

/// An ed25519 public key.
pub type Pubkey = [u8; 32];

/// Number of bytes that the data of one packet can have.
pub const PACKET_DATA_SIZE: usize = 1232;

pub const SIZE_OF_NONCE: usize = 4;

pub const SIZE_OF_COMMON_SHRED_HEADER: usize = 83;

pub const SIZE_OF_DATA_SHRED_HEADERS: usize = 88;

pub const SIZE_OF_CODING_SHRED_HEADERS: usize = 89;

pub const SIZE_OF_SIGNATURE: usize = 64;

/// Number of data shreds in each erasure batch.
pub const DATA_SHREDS_PER_FEC_BLOCK: usize = 32;

/// Number of coding shreds in each erasure batch.
pub const CODING_SHREDS_PER_FEC_BLOCK: usize = 32;

pub const SHREDS_PER_FEC_BLOCK: usize = 64;

/// An upper bound on the number of data shreds of one slot.
pub const MAX_DATA_SHREDS_PER_SLOT: usize = 32_768;

/// An upper bound on the number of coding shreds of one slot.
pub const MAX_CODE_SHREDS_PER_SLOT: usize = 32_768;

pub const MAX_FEC_SETS_PER_SLOT: u32 = 1024;

/// How many bytes of data a batch holds that is not the last of its slot: 32 data shreds with
/// proofs for 64 leaves and no retransmitter's signature.
pub fn get_data_shred_bytes_per_batch_typical() -> (size: u64)
    ensures
        size == 30816,
        capacity_of(ShredType::Data, PROOF_ENTRIES_FOR_32_32_BATCH, false) matches Ok(capacity)
            && size == DATA_SHREDS_PER_FEC_BLOCK * capacity,
{
    match ShredData::const_capacity(PROOF_ENTRIES_FOR_32_32_BATCH, false) {
        Ok(capacity) => (DATA_SHREDS_PER_FEC_BLOCK * capacity) as u64,
        Err(_) => 0,
    }
}

} // verus!
