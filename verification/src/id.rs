//! Names of shreds and of erasure batches.
use crate::{Pubkey, Slot};
use crate::bytes_util::{bytes_of_u32, bytes_of_u64, u32_le_bytes, u64_le_bytes};
use crate::crypto::{hashv, lemma_concat_4, sha256};
use crate::shred_type::{type_byte, ShredType};
use vstd::prelude::*;

verus! {

/// The slot, index and type, which together name a shred.
#[derive(Clone, Copy, Debug, PartialEq, Eq, Hash, Structural)]
pub struct ShredId(pub Slot, pub u32, pub ShredType);

impl ShredId {
    pub fn new(slot: Slot, index: u32, shred_type: ShredType) -> (id: ShredId)
        ensures
            id == ShredId(slot, index, shred_type),
    {
        ShredId(slot, index, shred_type)
    }

    pub fn slot(&self) -> (slot: Slot)
        ensures
            slot == self.0,
    {
        self.0
    }

    pub fn index(&self) -> (index: u32)
        ensures
            index == self.1,
    {
        self.1
    }

    pub fn shred_type(&self) -> (shred_type: ShredType)
        ensures
            shred_type == self.2,
    {
        self.2
    }

    pub fn unpack(&self) -> (parts: (Slot, u32, ShredType))
        ensures
            parts == (self.0, self.1, self.2),
    {
        (self.0, self.1, self.2)
    }

    /// The digest of the slot, the type, the index and the leader, from which the order is drawn in
    /// which nodes retransmit the shred.
    pub fn seed(&self, leader: &Pubkey) -> (seed: [u8; 32])
        ensures
            seed@ == sha256(
                u64_le_bytes(self.0) + seq![type_byte(self.2)] + u32_le_bytes(self.1) + leader@,
            ),
    {
        let slot = bytes_of_u64(self.0);
        let shred_type: [u8; 1] = [u8::from(self.2)];
        let index = bytes_of_u32(self.1);
        let parts: [&[u8]; 4] = [
            slot.as_slice(),
            shred_type.as_slice(),
            index.as_slice(),
            leader.as_slice(),
        ];
        proof {
            lemma_concat_4(parts@);
            assert(shred_type@ =~= seq![type_byte(self.2)]);
        }
        hashv(parts.as_slice())
    }
}

/// The slot and the index of the first data shred, which together name an erasure batch.
#[derive(Clone, Copy, Debug, PartialEq, Eq, Hash, PartialOrd, Ord, Structural)]
pub struct ErasureSetId(pub Slot, pub u32);

impl ErasureSetId {
    pub fn new(slot: Slot, fec_set_index: u32) -> (id: ErasureSetId)
        ensures
            id == ErasureSetId(slot, fec_set_index),
    {
        ErasureSetId(slot, fec_set_index)
    }

    pub fn slot(&self) -> (slot: Slot)
        ensures
            slot == self.0,
    {
        self.0
    }

    pub fn fec_set_index(&self) -> (fec_set_index: u32)
        ensures
            fec_set_index == self.1,
    {
        self.1
    }

    /// The key under which what is known of the batch is stored.
    pub fn store_key(&self) -> (key: (Slot, u32))
        ensures
            key == (self.0, self.1),
    {
        (self.0, self.1)
    }
}

} // verus!
