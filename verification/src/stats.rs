//! Counters of shreds that were discarded or accepted.
use vstd::prelude::*;

verus! {

/// How many shreds were discarded for which reason, and how many were accepted.
#[derive(Clone, Copy, Debug, PartialEq, Eq, Structural)]
pub struct ShredFetchStats {
    /// The buffer is too short for the shred that it starts with.
    pub index_overrun: usize,
    /// The shred is of another version.
    pub shred_version_mismatch: usize,
    /// The variant byte stands for no variant.
    pub bad_shred_type: usize,
    /// The slot is not one of those looked for.
    pub slot_out_of_range: usize,
    /// There is no slot.
    pub slot_bad_deserialize: usize,
    /// There is no index.
    pub index_bad_deserialize: usize,
    /// There is no index of the erasure batch.
    pub fec_set_index_bad_deserialize: usize,
    /// The index is too large.
    pub index_out_of_bounds: usize,
    /// There is no size of the erasure batch.
    pub erasure_config_bad_deserialize: usize,
    /// The erasure batch is not of the fixed size.
    pub misaligned_erasure_config: usize,
    /// The parent lies before the first slot, or is not told.
    pub bad_parent_offset: usize,
    /// There are no flags.
    pub shred_flags_bad_deserialize: usize,
    /// Data are complete before the end of an erasure batch.
    pub unexpected_data_complete_shred: usize,
    /// The last data shred of a slot does not end an erasure batch.
    pub misaligned_last_data_index: usize,
    /// The index does not fit the erasure batch.
    pub misaligned_fec_set: usize,
    /// Coding shreds that were accepted.
    pub num_shreds_merkle_code_chained: usize,
    /// Data shreds that were accepted.
    pub num_shreds_merkle_data_chained: usize,
}

/// What a discarded shred is counted as.
pub enum Reason {
    IndexOverrun,
    ShredVersionMismatch,
    BadShredType,
    SlotOutOfRange,
    SlotBadDeserialize,
    IndexBadDeserialize,
    FecSetIndexBadDeserialize,
    IndexOutOfBounds,
    ErasureConfigBadDeserialize,
    MisalignedErasureConfig,
    BadParentOffset,
    ShredFlagsBadDeserialize,
    UnexpectedDataCompleteShred,
    MisalignedLastDataIndex,
    MisalignedFecSet,
}

impl Default for ShredFetchStats {
    fn default() -> (stats: ShredFetchStats)
        ensures
            stats == ShredFetchStats::zero(),
            stats.can_count(),
            stats.index_overrun == 0 && stats.shred_version_mismatch == 0 && stats.bad_shred_type == 0,
            stats.slot_out_of_range == 0 && stats.slot_bad_deserialize == 0,
            stats.index_bad_deserialize == 0 && stats.fec_set_index_bad_deserialize == 0,
            stats.index_out_of_bounds == 0 && stats.erasure_config_bad_deserialize == 0,
            stats.misaligned_erasure_config == 0 && stats.bad_parent_offset == 0,
            stats.shred_flags_bad_deserialize == 0 && stats.unexpected_data_complete_shred == 0,
            stats.misaligned_last_data_index == 0 && stats.misaligned_fec_set == 0,
            stats.num_shreds_merkle_code_chained == 0 && stats.num_shreds_merkle_data_chained == 0,
    {
        ShredFetchStats {
            index_overrun: 0,
            shred_version_mismatch: 0,
            bad_shred_type: 0,
            slot_out_of_range: 0,
            slot_bad_deserialize: 0,
            index_bad_deserialize: 0,
            fec_set_index_bad_deserialize: 0,
            index_out_of_bounds: 0,
            erasure_config_bad_deserialize: 0,
            misaligned_erasure_config: 0,
            bad_parent_offset: 0,
            shred_flags_bad_deserialize: 0,
            unexpected_data_complete_shred: 0,
            misaligned_last_data_index: 0,
            misaligned_fec_set: 0,
            num_shreds_merkle_code_chained: 0,
            num_shreds_merkle_data_chained: 0,
        }
    }
}

impl ShredFetchStats {
    /// Nothing counted.
    pub open spec fn zero() -> ShredFetchStats {
        ShredFetchStats {
            index_overrun: 0,
            shred_version_mismatch: 0,
            bad_shred_type: 0,
            slot_out_of_range: 0,
            slot_bad_deserialize: 0,
            index_bad_deserialize: 0,
            fec_set_index_bad_deserialize: 0,
            index_out_of_bounds: 0,
            erasure_config_bad_deserialize: 0,
            misaligned_erasure_config: 0,
            bad_parent_offset: 0,
            shred_flags_bad_deserialize: 0,
            unexpected_data_complete_shred: 0,
            misaligned_last_data_index: 0,
            misaligned_fec_set: 0,
            num_shreds_merkle_code_chained: 0,
            num_shreds_merkle_data_chained: 0,
        }
    }

    /// Whether no counter of discarded shreds has reached its end.
    pub open spec fn can_count(self) -> bool {
        &&& self.index_overrun < usize::MAX
        &&& self.shred_version_mismatch < usize::MAX
        &&& self.bad_shred_type < usize::MAX
        &&& self.slot_out_of_range < usize::MAX
        &&& self.slot_bad_deserialize < usize::MAX
        &&& self.index_bad_deserialize < usize::MAX
        &&& self.fec_set_index_bad_deserialize < usize::MAX
        &&& self.index_out_of_bounds < usize::MAX
        &&& self.erasure_config_bad_deserialize < usize::MAX
        &&& self.misaligned_erasure_config < usize::MAX
        &&& self.bad_parent_offset < usize::MAX
        &&& self.shred_flags_bad_deserialize < usize::MAX
        &&& self.unexpected_data_complete_shred < usize::MAX
        &&& self.misaligned_last_data_index < usize::MAX
        &&& self.misaligned_fec_set < usize::MAX
    }

    /// One more shred counted for the given reason.
    pub open spec fn counted(self, reason: Reason) -> ShredFetchStats {
        match reason {
            Reason::IndexOverrun => ShredFetchStats {
                index_overrun: (self.index_overrun + 1) as usize,
                ..self
            },
            Reason::ShredVersionMismatch => ShredFetchStats {
                shred_version_mismatch: (self.shred_version_mismatch + 1) as usize,
                ..self
            },
            Reason::BadShredType => ShredFetchStats {
                bad_shred_type: (self.bad_shred_type + 1) as usize,
                ..self
            },
            Reason::SlotOutOfRange => ShredFetchStats {
                slot_out_of_range: (self.slot_out_of_range + 1) as usize,
                ..self
            },
            Reason::SlotBadDeserialize => ShredFetchStats {
                slot_bad_deserialize: (self.slot_bad_deserialize + 1) as usize,
                ..self
            },
            Reason::IndexBadDeserialize => ShredFetchStats {
                index_bad_deserialize: (self.index_bad_deserialize + 1) as usize,
                ..self
            },
            Reason::FecSetIndexBadDeserialize => ShredFetchStats {
                fec_set_index_bad_deserialize: (self.fec_set_index_bad_deserialize + 1) as usize,
                ..self
            },
            Reason::IndexOutOfBounds => ShredFetchStats {
                index_out_of_bounds: (self.index_out_of_bounds + 1) as usize,
                ..self
            },
            Reason::ErasureConfigBadDeserialize => ShredFetchStats {
                erasure_config_bad_deserialize: (self.erasure_config_bad_deserialize + 1) as usize,
                ..self
            },
            Reason::MisalignedErasureConfig => ShredFetchStats {
                misaligned_erasure_config: (self.misaligned_erasure_config + 1) as usize,
                ..self
            },
            Reason::BadParentOffset => ShredFetchStats {
                bad_parent_offset: (self.bad_parent_offset + 1) as usize,
                ..self
            },
            Reason::ShredFlagsBadDeserialize => ShredFetchStats {
                shred_flags_bad_deserialize: (self.shred_flags_bad_deserialize + 1) as usize,
                ..self
            },
            Reason::UnexpectedDataCompleteShred => ShredFetchStats {
                unexpected_data_complete_shred: (self.unexpected_data_complete_shred + 1) as usize,
                ..self
            },
            Reason::MisalignedLastDataIndex => ShredFetchStats {
                misaligned_last_data_index: (self.misaligned_last_data_index + 1) as usize,
                ..self
            },
            Reason::MisalignedFecSet => ShredFetchStats {
                misaligned_fec_set: (self.misaligned_fec_set + 1) as usize,
                ..self
            },
        }
    }

    /// One more coding shred accepted, unless the counter has reached its end.
    pub open spec fn code_accepted(self) -> ShredFetchStats {
        if self.num_shreds_merkle_code_chained < usize::MAX {
            ShredFetchStats {
                num_shreds_merkle_code_chained: (self.num_shreds_merkle_code_chained + 1) as usize,
                ..self
            }
        } else {
            self
        }
    }

    /// One more data shred accepted, unless the counter has reached its end.
    pub open spec fn data_accepted(self) -> ShredFetchStats {
        if self.num_shreds_merkle_data_chained < usize::MAX {
            ShredFetchStats {
                num_shreds_merkle_data_chained: (self.num_shreds_merkle_data_chained + 1) as usize,
                ..self
            }
        } else {
            self
        }
    }
}

} // verus!
